use vstd::prelude::*;
use rltk::RandomNumberGenerator;
use crate::builder::{MapBuilder, level_ok, record_snapshot, stairs_farthest};
use crate::cellular_automata::{interior, start_left_of_centre};
use crate::components::Position;
use crate::flood::{FloodMap, finish_with_stairs};
use crate::map::{GridMap, TileType, MAPCOUNT, MAPWIDTH, MAPHEIGHT, col_of, row_of, idx_of, lemma_idx_decompose};
use crate::random::roll_die;
use crate::spawn_regions::{generate_voronoi_spawn_regions, regions_ok};

verus! {

/// How the distance from a tile to a seed point is measured.
#[derive(Clone, Copy, PartialEq, Eq, Structural, Debug)]
pub enum DistanceAlgorithm {
    Chebyshev,
    Manhattan,
    Pythagoras,
}

pub open spec fn abs_int(a: int) -> int {
    if a < 0 { -a } else { a }
}

/// Distance between two points under `alg`; for `Pythagoras` the square of
/// the straight-line distance, which orders points the same way.
pub open spec fn seed_distance(alg: DistanceAlgorithm, x1: int, y1: int, x2: int, y2: int) -> int {
    let dx = abs_int(x1 - x2);
    let dy = abs_int(y1 - y2);
    match alg {
        DistanceAlgorithm::Chebyshev => if dx >= dy { dx } else { dy },
        DistanceAlgorithm::Manhattan => dx + dy,
        DistanceAlgorithm::Pythagoras => dx * dx + dy * dy,
    }
}

/// Coordinates a seed may have.
pub open spec fn seed_ok(p: (i32, i32)) -> bool {
    -4096 <= p.0 <= 4096 && -4096 <= p.1 <= 4096
}

/// `k` is the first of the seeds nearest to (x, y).
pub open spec fn is_nearest_seed(seeds: Seq<(i32, i32)>, alg: DistanceAlgorithm, x: int, y: int, k: int) -> bool {
    &&& 0 <= k < seeds.len()
    &&& forall|j: int|
        0 <= j < seeds.len() ==> seed_distance(alg, x, y, seeds[j].0 as int, seeds[j].1 as int)
            >= seed_distance(alg, x, y, seeds[k].0 as int, seeds[k].1 as int)
    &&& forall|j: int|
        0 <= j < k ==> seed_distance(alg, x, y, seeds[j].0 as int, seeds[j].1 as int)
            > seed_distance(alg, x, y, seeds[k].0 as int, seeds[k].1 as int)
}

fn distance_between(alg: DistanceAlgorithm, x1: i32, y1: i32, x2: i32, y2: i32) -> (r: i64)
    requires
        -4096 <= x1 <= 4096,
        -4096 <= y1 <= 4096,
        -4096 <= x2 <= 4096,
        -4096 <= y2 <= 4096,
    ensures
        r == seed_distance(alg, x1 as int, y1 as int, x2 as int, y2 as int),
{
    let dx: i64 = if x1 >= x2 { (x1 - x2) as i64 } else { (x2 - x1) as i64 };
    let dy: i64 = if y1 >= y2 { (y1 - y2) as i64 } else { (y2 - y1) as i64 };
    match alg {
        DistanceAlgorithm::Chebyshev => if dx >= dy { dx } else { dy },
        DistanceAlgorithm::Manhattan => dx + dy,
        DistanceAlgorithm::Pythagoras => {
            assert(dx * dx <= 8192 * 8192) by (nonlinear_arith)
                requires
                    0 <= dx <= 8192,
            ;
            assert(dy * dy <= 8192 * 8192) by (nonlinear_arith)
                requires
                    0 <= dy <= 8192,
            ;
            dx * dx + dy * dy
        },
    }
}

/// The first seed nearest to (x, y).
pub fn nearest_seed(seeds: &Vec<(i32, i32)>, alg: DistanceAlgorithm, x: i32, y: i32) -> (r: usize)
    requires
        seeds@.len() >= 1,
        forall|j: int| 0 <= j < seeds@.len() ==> seed_ok(#[trigger] seeds@[j]),
        -4096 <= x <= 4096,
        -4096 <= y <= 4096,
    ensures
        is_nearest_seed(seeds@, alg, x as int, y as int, r as int),
{
    let mut best: usize = 0;
    let mut best_d = distance_between(alg, x, y, seeds[0].0, seeds[0].1);
    let mut j: usize = 1;
    while j < seeds.len()
        invariant
            1 <= j <= seeds@.len(),
            forall|k: int| 0 <= k < seeds@.len() ==> seed_ok(#[trigger] seeds@[k]),
            -4096 <= x <= 4096,
            -4096 <= y <= 4096,
            best < j,
            best_d == seed_distance(alg, x as int, y as int, seeds@[best as int].0 as int, seeds@[best as int].1 as int),
            forall|k: int|
                0 <= k < j ==> seed_distance(alg, x as int, y as int, seeds@[k].0 as int, seeds@[k].1 as int)
                    >= best_d,
            forall|k: int|
                0 <= k < best ==> seed_distance(alg, x as int, y as int, seeds@[k].0 as int, seeds@[k].1 as int)
                    > best_d,
        decreases seeds@.len() - j,
    {
        let d = distance_between(alg, x, y, seeds[j].0, seeds[j].1);
        if d < best_d {
            best = j;
            best_d = d;
        }
        j = j + 1;
    }
    best
}

/// For each tile of a `width` by `height` grid, the first seed nearest to it.
pub fn voronoi_membership(width: i32, height: i32, seeds: &Vec<(i32, i32)>, alg: DistanceAlgorithm) -> (r: Vec<usize>)
    requires
        1 <= width <= 1024,
        1 <= height <= 1024,
        seeds@.len() >= 1,
        forall|j: int| 0 <= j < seeds@.len() ==> seed_ok(#[trigger] seeds@[j]),
    ensures
        r@.len() == width * height,
        forall|i: int|
            0 <= i < r@.len() ==> is_nearest_seed(
                seeds@,
                alg,
                col_of(width as int, i),
                row_of(width as int, i),
                #[trigger] r@[i] as int,
            ),
{
    proof {
        assert(width * height <= 1024 * 1024) by (nonlinear_arith)
            requires
                1 <= width <= 1024,
                1 <= height <= 1024,
        ;
    }
    let n: usize = (width as usize) * (height as usize);
    let mut r: Vec<usize> = Vec::new();
    let mut i: usize = 0;
    while i < n
        invariant
            1 <= width <= 1024,
            1 <= height <= 1024,
            n == width * height,
            seeds@.len() >= 1,
            forall|j: int| 0 <= j < seeds@.len() ==> seed_ok(#[trigger] seeds@[j]),
            i <= n,
            r@.len() == i,
            forall|k: int|
                0 <= k < i ==> is_nearest_seed(
                    seeds@,
                    alg,
                    col_of(width as int, k),
                    row_of(width as int, k),
                    #[trigger] r@[k] as int,
                ),
        decreases n - i,
    {
        proof {
            lemma_idx_decompose(width as int, height as int, i as int);
        }
        let x = (i % (width as usize)) as i32;
        let y = (i / (width as usize)) as i32;
        let k = nearest_seed(seeds, alg, x, y);
        r.push(k);
        i = i + 1;
    }
    r
}

/// Seed-point draws a build makes at most while looking for distinct seeds;
/// more seeds than the inner tiles can hold are never all found.
pub const MAX_SEED_DRAWS: usize = 100000;

pub open spec fn differs(member: Seq<usize>, i: int, j: int) -> int {
    if 0 <= j < member.len() && member[j] != member[i] { 1 } else { 0 }
}

/// How many of the four tiles beside tile `i` belong to another cell.
pub open spec fn foreign_neighbors(member: Seq<usize>, w: int, i: int) -> int {
    differs(member, i, i - 1) + differs(member, i, i + 1) + differs(member, i, i - w) + differs(member, i, i + w)
}

/// Inner tiles with fewer than two neighbours of another cell become floor.
pub open spec fn cell_floors(t: Seq<TileType>, member: Seq<usize>, w: int, h: int) -> Seq<TileType> {
    Seq::new(
        t.len(),
        |i: int|
            if interior(w, h, i) && foreign_neighbors(member, w, i) < 2 {
                TileType::Floor
            } else {
                t[i]
            },
    )
}

fn differs_at(member: &Vec<usize>, i: usize, j: usize) -> (r: u32)
    requires
        i < member@.len(),
        j < member@.len(),
    ensures
        r == differs(member@, i as int, j as int),
{
    if member[j] != member[i] { 1 } else { 0 }
}

/// Floors the inner tiles that border at most one other Voronoi cell.
pub fn carve_cell_interiors(map: &mut GridMap, member: &Vec<usize>)
    requires
        old(map).wf(),
        member@.len() == old(map).tiles@.len(),
    ensures
        final(map).wf(),
        final(map).same_shape(old(map)),
        final(map).tiles@ == cell_floors(old(map).tiles@, member@, old(map).width as int, old(map).height as int),
{
    let ghost o = map.tiles@;
    let ghost w = map.width as int;
    let ghost h = map.height as int;
    let n = map.tiles.len();
    let wu = map.width as usize;
    let hu = map.height as usize;
    let mut i: usize = 0;
    while i < n
        invariant
            map.wf(),
            map.same_shape(old(map)),
            o == old(map).tiles@,
            member@.len() == n,
            n == o.len(),
            w == wu,
            h == hu,
            w == map.width,
            h == map.height,
            i <= n,
            forall|j: int|
                0 <= j < n ==> #[trigger] map.tiles@[j] == if j < i {
                    cell_floors(o, member@, w, h)[j]
                } else {
                    o[j]
                },
        decreases n - i,
    {
        let x = i % wu;
        let y = i / wu;
        proof {
            lemma_idx_decompose(w, h, i as int);
        }
        if x >= 1 && x + 2 <= wu && y >= 1 && y + 2 <= hu {
            proof {
                crate::cellular_automata::lemma_interior_neighbors(w, h, i as int);
            }
            let k = differs_at(member, i, i - 1) + differs_at(member, i, i + 1) + differs_at(member, i, i - wu)
                + differs_at(member, i, i + wu);
            if k < 2 {
                map.tiles.set(i, TileType::Floor);
            }
        }
        i = i + 1;
    }
    assert(map.tiles@ =~= cell_floors(o, member@, w, h));
}

/// Draws seed points inside the map's inner area until `wanted` distinct
/// ones are found or `MAX_SEED_DRAWS` draws are spent; returns the seeds and
/// the draws made.
fn scatter_seeds(wanted: usize, w: i32, h: i32, rng: &mut RandomNumberGenerator) -> (r: (Vec<(i32, i32)>, usize))
    requires
        wanted >= 1,
        w == MAPWIDTH,
        h == MAPHEIGHT,
    ensures
        1 <= r.0@.len() <= wanted,
        r.0@.len() == wanted || r.1 == MAX_SEED_DRAWS,
        forall|j: int| 0 <= j < r.0@.len() ==> 1 <= (#[trigger] r.0@[j]).0 < w && 1 <= r.0@[j].1 < h,
        forall|a: int, b: int| 0 <= a < b < r.0@.len() ==> #[trigger] r.0@[a] != #[trigger] r.0@[b],
{
        let mut seeds: Vec<(i32, i32)> = Vec::new();
        let mut draws: usize = 0;
        while seeds.len() < wanted && draws < MAX_SEED_DRAWS
            invariant
                w == MAPWIDTH,
                h == MAPHEIGHT,
                draws > 0 ==> seeds@.len() >= 1,
                seeds@.len() <= wanted,
                draws <= MAX_SEED_DRAWS,
                forall|j: int| 0 <= j < seeds@.len() ==> 1 <= (#[trigger] seeds@[j]).0 < w && 1 <= seeds@[j].1 < h,
                forall|a: int, b: int| 0 <= a < b < seeds@.len() ==> #[trigger] seeds@[a] != #[trigger] seeds@[b],
            decreases MAX_SEED_DRAWS - draws,
        {
            let vx = roll_die(rng, w - 1);
            let vy = roll_die(rng, h - 1);
            let mut known = false;
            let mut k: usize = 0;
            while k < seeds.len()
                invariant
                    k <= seeds@.len(),
                    known ==> seeds@.len() > 0,
                    !known ==> forall|j: int| 0 <= j < k ==> #[trigger] seeds@[j] != (vx, vy),
                decreases seeds@.len() - k,
            {
                if seeds[k].0 == vx && seeds[k].1 == vy {
                    known = true;
                }
                k = k + 1;
            }
            if !known {
                seeds.push((vx, vy));
            }
            draws = draws + 1;
        }
    (seeds, draws)
}

pub struct VoronoiCellSettings {
    pub distance_algorithm: DistanceAlgorithm,
    /// Seed points to scatter; none is taken as one.
    pub n_seeds: usize,
}

/// Caves whose walls follow the borders of Voronoi cells around random seeds.
pub struct VoronoiCellBuilder {
    pub map: GridMap,
    pub starting_position: Position,
    pub depth: i32,
    pub history: Vec<GridMap>,
    /// Whether each step's map is recorded in `history`, for playback.
    pub visualize: bool,
    pub noise_areas: Vec<Vec<usize>>,
    pub settings: VoronoiCellSettings,
    /// Index of the down stairs.
    pub exit: usize,
    /// The flood that placed the stairs.
    pub flood: FloodMap,
    /// The seed points scattered, and how many draws it took.
    pub seeds: Vec<(i32, i32)>,
    pub seed_draws: usize,
    /// The nearest seed of each tile.
    pub membership: Vec<usize>,
    /// The tiles once the cell interiors were floored.
    pub cell_tiles: Vec<TileType>,
    /// Whether the middle row held no cell floor at or left of the centre,
    /// so the centre was floored to start on.
    pub centre_carved: bool,
}

impl VoronoiCellBuilder {
    pub fn new(new_depth: i32, settings: VoronoiCellSettings) -> (r: Self)
        ensures
            r.depth == new_depth,
            r.map.fresh(new_depth),
            r.settings == settings,
    {
        VoronoiCellBuilder {
            map: GridMap::new(new_depth),
            starting_position: Position { x: 0, y: 0 },
            depth: new_depth,
            history: Vec::new(),
            visualize: false,
            noise_areas: Vec::new(),
            settings,
            exit: 0,
            flood: FloodMap { reached: Vec::new(), dist: Vec::new() },
            seeds: Vec::new(),
            seed_draws: 0,
            membership: Vec::new(),
            cell_tiles: Vec::new(),
            centre_carved: false,
        }
    }

    pub fn chebyshev(new_depth: i32) -> (r: Self)
        ensures
            r.depth == new_depth,
            r.map.fresh(new_depth),
            r.settings.distance_algorithm == DistanceAlgorithm::Chebyshev,
            r.settings.n_seeds == 64,
    {
        Self::new(new_depth, VoronoiCellSettings { distance_algorithm: DistanceAlgorithm::Chebyshev, n_seeds: 64 })
    }

    pub fn manhattan(new_depth: i32) -> (r: Self)
        ensures
            r.depth == new_depth,
            r.map.fresh(new_depth),
            r.settings.distance_algorithm == DistanceAlgorithm::Manhattan,
            r.settings.n_seeds == 64,
    {
        Self::new(new_depth, VoronoiCellSettings { distance_algorithm: DistanceAlgorithm::Manhattan, n_seeds: 64 })
    }

    pub fn pythagoras(new_depth: i32) -> (r: Self)
        ensures
            r.depth == new_depth,
            r.map.fresh(new_depth),
            r.settings.distance_algorithm == DistanceAlgorithm::Pythagoras,
            r.settings.n_seeds == 64,
    {
        Self::new(new_depth, VoronoiCellSettings { distance_algorithm: DistanceAlgorithm::Pythagoras, n_seeds: 64 })
    }

    /// Seeds asked for: `n_seeds`, taken as 1 when it is 0.
    pub open spec fn wanted_seeds(&self) -> int {
        if self.settings.n_seeds == 0 { 1 } else { self.settings.n_seeds as int }
    }

    pub open spec fn built(&self) -> bool {
        let w = MAPWIDTH as int;
        let h = MAPHEIGHT as int;
        &&& level_ok(self.map, self.starting_position, self.exit as int)
        &&& stairs_farthest(self.map, self.starting_position, self.exit as int, self.flood)
        &&& regions_ok(self.map, self.noise_areas@)
        &&& 1 <= self.seeds@.len() <= self.wanted_seeds()
        &&& self.seeds@.len() == self.wanted_seeds() || self.seed_draws == MAX_SEED_DRAWS
        &&& forall|j: int| 0 <= j < self.seeds@.len() ==> 1 <= (#[trigger] self.seeds@[j]).0 < w && 1 <= self.seeds@[j].1 < h
        &&& forall|a: int, b: int| 0 <= a < b < self.seeds@.len() ==> #[trigger] self.seeds@[a] != #[trigger] self.seeds@[b]
        &&& self.membership@.len() == w * h
        &&& forall|i: int|
            0 <= i < w * h ==> is_nearest_seed(
                self.seeds@,
                self.settings.distance_algorithm,
                col_of(w, i),
                row_of(w, i),
                #[trigger] self.membership@[i] as int,
            )
        &&& self.cell_tiles@ == cell_floors(Seq::new(MAPCOUNT as nat, |i: int| TileType::Wall), self.membership@, w, h)
        &&& self.map.tiles@ == crate::flood::pruned(
            if self.centre_carved {
                self.cell_tiles@.update(idx_of(w, w / 2, h / 2), TileType::Floor)
            } else {
                self.cell_tiles@
            },
            self.flood.reached@,
        ).update(self.exit as int, TileType::DownStairs)
        &&& self.map.width == w && self.map.height == h
        &&& self.starting_position.y == h / 2
        &&& 0 <= self.starting_position.x <= w / 2
        &&& self.centre_carved ==> self.starting_position.x == w / 2
            && forall|x: int| 0 <= x <= w / 2 ==> self.cell_tiles@[#[trigger] idx_of(w, x, h / 2)] != TileType::Floor
        &&& !self.centre_carved ==> self.cell_tiles@[idx_of(w, self.starting_position.x as int, h / 2)] == TileType::Floor
            && forall|x: int|
                self.starting_position.x < x <= w / 2 ==> self.cell_tiles@[#[trigger] idx_of(w, x, h / 2)] != TileType::Floor
    }

    /// Scatters distinct seed points, floors the inner tiles away from cell
    /// borders, starts the player on the first floor at or left of the
    /// centre of the middle row (the centre floored when there is none),
    /// removes what cannot be reached and puts the stairs on the farthest tile.
    #[verifier::rlimit(100)]
    pub fn build(&mut self, rng: &mut RandomNumberGenerator)
        ensures
            final(self).built(),
            final(self).settings == old(self).settings,
    {
        self.map = GridMap::new(self.depth);
        let w = self.map.width;
        let h = self.map.height;
        let wanted: usize = if self.settings.n_seeds == 0 { 1 } else { self.settings.n_seeds };
        let (seeds, draws) = scatter_seeds(wanted, w, h, rng);
        let member = voronoi_membership(w, h, &seeds, self.settings.distance_algorithm);
        carve_cell_interiors(&mut self.map, &member);
        self.cell_tiles = crate::builder::revealed_copy(&self.map).tiles;
        record_snapshot(&self.map, &mut self.history, self.visualize);
        let cy = h / 2;
        let (sx, carved) = start_left_of_centre(&mut self.map);
        self.centre_carved = carved;
        self.starting_position = Position { x: sx, y: cy };
        let start_idx = self.map.xy_idx(sx, cy).unwrap();
        self.seeds = seeds;
        self.membership = member;
        self.seed_draws = draws;
        let (exit, flood) = finish_with_stairs(&mut self.map, start_idx);
        self.exit = exit;
        self.flood = flood;
        record_snapshot(&self.map, &mut self.history, self.visualize);
        self.noise_areas = generate_voronoi_spawn_regions(&self.map, rng);
    }
}

impl MapBuilder for VoronoiCellBuilder {
    open spec fn finished(&self) -> bool {
        self.built()
    }

    open spec fn current_map(&self) -> GridMap {
        self.map
    }

    open spec fn snapshots(&self) -> Seq<GridMap> {
        self.history@
    }

    open spec fn visualizing(&self) -> bool {
        self.visualize
    }

    fn build_map(&mut self, rng: &mut RandomNumberGenerator) {
        self.build(rng);
    }

    fn get_map(&self) -> GridMap {
        self.map.clone()
    }

    fn get_starting_position(&self) -> Position {
        self.starting_position
    }

    fn get_snapshot_history(&self) -> Vec<GridMap> {
        self.history.clone()
    }

    fn get_spawn_list(&self) -> Vec<(usize, String)> {
        Vec::new()
    }

    fn take_snapshot(&mut self) {
        if self.map.is_well_formed() {
            record_snapshot(&self.map, &mut self.history, self.visualize);
        }
    }
}

} // verus!
