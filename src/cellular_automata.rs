use vstd::prelude::*;
use rltk::RandomNumberGenerator;
use crate::builder::{MapBuilder, level_ok, record_snapshot, revealed_copy, stairs_farthest};
use crate::components::Position;
use crate::flood::{FloodMap, finish_with_stairs};
use crate::map::{GridMap, TileType, MAPWIDTH, MAPHEIGHT, col_of, row_of, idx_of, lemma_idx_decompose};
use crate::random::roll_die;
use crate::spawn_regions::{generate_voronoi_spawn_regions, regions_ok};

verus! {

/// Number of refinement passes of the automaton.
pub const GENERATIONS: usize = 15;

/// `t` after `k` generations of the automaton.
pub open spec fn evolved(t: Seq<TileType>, w: int, h: int, k: int) -> Seq<TileType>
    decreases k,
{
    if k <= 0 {
        t
    } else {
        automaton_step(evolved(t, w, h, k - 1), w, h)
    }
}

/// Tile `i` is off the outermost ring of a `w` by `h` map.
pub open spec fn interior(w: int, h: int, i: int) -> bool {
    1 <= col_of(w, i) <= w - 2 && 1 <= row_of(w, i) <= h - 2
}

pub open spec fn wall_count(t: Seq<TileType>, i: int) -> int {
    if 0 <= i < t.len() && t[i] == TileType::Wall { 1 } else { 0 }
}

/// Walls among the eight tiles around tile `i`.
pub open spec fn wall_neighbors(t: Seq<TileType>, w: int, i: int) -> int {
    wall_count(t, i - 1) + wall_count(t, i + 1) + wall_count(t, i - w) + wall_count(t, i + w)
        + wall_count(t, i - w + 1) + wall_count(t, i - w - 1) + wall_count(t, i + w - 1)
        + wall_count(t, i + w + 1)
}

/// One generation: an inner tile becomes wall when more than four or none of
/// its neighbours are walls, and floor otherwise; the outer ring stays.
pub open spec fn automaton_step(t: Seq<TileType>, w: int, h: int) -> Seq<TileType> {
    Seq::new(
        t.len(),
        |i: int|
            if interior(w, h, i) {
                let k = wall_neighbors(t, w, i);
                if k > 4 || k == 0 {
                    TileType::Wall
                } else {
                    TileType::Floor
                }
            } else {
                t[i]
            },
    )
}

pub proof fn lemma_interior_neighbors(w: int, h: int, i: int)
    requires
        1 <= w,
        1 <= h,
        0 <= i < w * h,
        interior(w, h, i),
    ensures
        i - w - 1 >= 0,
        i + w + 1 < w * h,
{
    lemma_idx_decompose(w, h, i);
    let x = col_of(w, i);
    let y = row_of(w, i);
    assert(i - w - 1 >= 0) by (nonlinear_arith)
        requires
            i == y * w + x,
            1 <= y,
            1 <= x,
            1 <= w,
    ;
    assert(i + w + 1 < w * h) by (nonlinear_arith)
        requires
            i == y * w + x,
            0 <= y <= h - 2,
            x <= w - 2,
            1 <= w,
    ;
}

fn is_wall_at(t: &Vec<TileType>, i: usize) -> (r: u32)
    requires
        i < t@.len(),
    ensures
        r == wall_count(t@, i as int),
{
    if t[i] == TileType::Wall { 1 } else { 0 }
}

/// Applies one generation of the automaton to the map's tiles.
pub fn automaton_generation(map: &mut GridMap)
    requires
        old(map).wf(),
    ensures
        final(map).wf(),
        final(map).same_shape(old(map)),
        final(map).tiles@ == automaton_step(old(map).tiles@, old(map).width as int, old(map).height as int),
{
    let old_tiles = map.tiles.clone();
    let ghost o = map.tiles@;
    assert(old_tiles@ =~= o);
    let ghost w = map.width as int;
    let ghost h = map.height as int;
    let n = map.tiles.len();
    let wu = map.width as usize;
    let hu = map.height as usize;
    let mut i: usize = 0;
    while i < n
        invariant
            map.wf(),
            map.same_shape(old(map)),
            o == old(map).tiles@,
            old_tiles@ == o,
            n == o.len(),
            w == wu,
            h == hu,
            w == map.width,
            h == map.height,
            i <= n,
            forall|j: int|
                0 <= j < n ==> #[trigger] map.tiles@[j] == if j < i {
                    automaton_step(o, w, h)[j]
                } else {
                    o[j]
                },
        decreases n - i,
    {
        let x = i % wu;
        let y = i / wu;
        proof {
            lemma_idx_decompose(w, h, i as int);
        }
        if x >= 1 && x + 2 <= wu && y >= 1 && y + 2 <= hu {
            proof {
                lemma_interior_neighbors(w, h, i as int);
            }
            let k = is_wall_at(&old_tiles, i - 1) + is_wall_at(&old_tiles, i + 1) + is_wall_at(
                &old_tiles,
                i - wu,
            ) + is_wall_at(&old_tiles, i + wu) + is_wall_at(&old_tiles, i - wu + 1) + is_wall_at(
                &old_tiles,
                i - wu - 1,
            ) + is_wall_at(&old_tiles, i + wu - 1) + is_wall_at(&old_tiles, i + wu + 1);
            if k > 4 || k == 0 {
                map.tiles.set(i, TileType::Wall);
            } else {
                map.tiles.set(i, TileType::Floor);
            }
        }
        i = i + 1;
    }
    assert(map.tiles@ =~= automaton_step(o, w, h));
}

/// Fills every inner tile with wall or floor at random, walls a little more
/// likely (a roll of 1 to 55 out of 100); the outer ring stays.
pub fn randomize_interior(map: &mut GridMap, rng: &mut RandomNumberGenerator)
    requires
        old(map).wf(),
    ensures
        final(map).wf(),
        final(map).same_shape(old(map)),
        forall|i: int|
            0 <= i < final(map).tiles@.len() ==> if interior(
                old(map).width as int,
                old(map).height as int,
                i,
            ) {
                #[trigger] final(map).tiles@[i] == TileType::Floor || final(map).tiles@[i] == TileType::Wall
            } else {
                final(map).tiles@[i] == old(map).tiles@[i]
            },
{
    let ghost o = map.tiles@;
    let ghost w = map.width as int;
    let ghost h = map.height as int;
    let n = map.tiles.len();
    let wu = map.width as usize;
    let hu = map.height as usize;
    let mut i: usize = 0;
    while i < n
        invariant
            map.wf(),
            map.same_shape(old(map)),
            o == old(map).tiles@,
            n == o.len(),
            w == wu,
            h == hu,
            w == map.width,
            h == map.height,
            i <= n,
            forall|j: int|
                0 <= j < n ==> if j < i && interior(w, h, j) {
                    #[trigger] map.tiles@[j] == TileType::Floor || map.tiles@[j] == TileType::Wall
                } else {
                    map.tiles@[j] == o[j]
                },
        decreases n - i,
    {
        let x = i % wu;
        let y = i / wu;
        proof {
            lemma_idx_decompose(w, h, i as int);
        }
        if x >= 1 && x + 2 <= wu && y >= 1 && y + 2 <= hu {
            let roll = roll_die(rng, 100);
            if roll > 55 {
                map.tiles.set(i, TileType::Floor);
            } else {
                map.tiles.set(i, TileType::Wall);
            }
        }
        i = i + 1;
    }
}

/// The nearest floor tile at or left of (x, y) on row y: its column, or
/// `None` when the row holds none there.
pub fn walk_left_to_floor(map: &GridMap, x: i32, y: i32) -> (r: Option<i32>)
    requires
        map.wf(),
        map.in_map(x as int, y as int),
    ensures
        match r {
            Some(c) => {
                &&& 0 <= c <= x
                &&& map.tiles@[map.idx(c as int, y as int)] == TileType::Floor
                &&& forall|k: int| c < k <= x ==> map.tiles@[map.idx(k, y as int)] != TileType::Floor
            },
            None => forall|k: int| 0 <= k <= x ==> map.tiles@[map.idx(k, y as int)] != TileType::Floor,
        },
{
    let mut c: i32 = x;
    while c >= 0
        invariant
            map.wf(),
            map.in_map(x as int, y as int),
            -1 <= c <= x,
            forall|k: int| c < k <= x ==> map.tiles@[map.idx(k, y as int)] != TileType::Floor,
        decreases c + 1,
    {
        let idx = map.xy_idx(c, y).unwrap();
        if map.tiles[idx] == TileType::Floor {
            return Some(c);
        }
        c = c - 1;
    }
    None
}

/// Picks the start on the middle row: the first floor at or left of the
/// centre, or the centre itself, made floor, when there is none. Returns
/// the start's column and whether the centre was made floor.
pub fn start_left_of_centre(map: &mut GridMap) -> (r: (i32, bool))
    requires
        old(map).wf(),
        old(map).width == MAPWIDTH,
        old(map).height == MAPHEIGHT,
    ensures
        final(map).wf(),
        final(map).same_shape(old(map)),
        ({
            let w = MAPWIDTH as int;
            let cy = MAPHEIGHT as int / 2;
            let o = old(map).tiles@;
            &&& final(map).tiles@ == if r.1 { o.update(idx_of(w, w / 2, cy), TileType::Floor) } else { o }
            &&& 0 <= r.0 <= w / 2
            &&& r.1 ==> r.0 == w / 2 && forall|x: int| 0 <= x <= w / 2 ==> o[#[trigger] idx_of(w, x, cy)] != TileType::Floor
            &&& !r.1 ==> o[idx_of(w, r.0 as int, cy)] == TileType::Floor && forall|x: int|
                r.0 < x <= w / 2 ==> o[#[trigger] idx_of(w, x, cy)] != TileType::Floor
            &&& final(map).tiles@[idx_of(w, r.0 as int, cy)] == TileType::Floor
        }),
{
    let cx = map.width / 2;
    let cy = map.height / 2;
    match walk_left_to_floor(map, cx, cy) {
        Some(c) => {
            proof {
                assert forall|x: int| c < x <= cx implies map.tiles@[#[trigger] idx_of(MAPWIDTH as int, x, cy as int)] != TileType::Floor by {
                    assert(map.idx(x, cy as int) == idx_of(MAPWIDTH as int, x, cy as int));
                }
            }
            (c, false)
        },
        None => {
            let ci = map.xy_idx(cx, cy).unwrap();
            proof {
                assert forall|x: int| 0 <= x <= cx implies map.tiles@[#[trigger] idx_of(MAPWIDTH as int, x, cy as int)] != TileType::Floor by {
                    assert(map.idx(x, cy as int) == idx_of(MAPWIDTH as int, x, cy as int));
                }
            }
            map.tiles.set(ci, TileType::Floor);
            (cx, true)
        },
    }
}

/// Caves grown by a cellular automaton from random noise.
pub struct CellularAutomataBuilder {
    pub map: GridMap,
    pub starting_position: Position,
    pub depth: i32,
    pub history: Vec<GridMap>,
    /// Whether each step's map is recorded in `history`, for playback.
    pub visualize: bool,
    /// Tiles of each spawn region.
    pub noise_areas: Vec<Vec<usize>>,
    /// Index of the down stairs.
    pub exit: usize,
    /// The flood that placed the stairs.
    pub flood: FloodMap,
    /// The tiles right after random seeding.
    pub seeded_tiles: Vec<TileType>,
    /// Whether the middle row held no floor at or left of the centre, so
    /// the centre was floored to start on.
    pub centre_carved: bool,
}

impl CellularAutomataBuilder {
    pub fn new(new_depth: i32) -> (r: CellularAutomataBuilder)
        ensures
            r.depth == new_depth,
            r.map.fresh(new_depth),
    {
        CellularAutomataBuilder {
            map: GridMap::new(new_depth),
            starting_position: Position { x: 0, y: 0 },
            depth: new_depth,
            history: Vec::new(),
            visualize: false,
            noise_areas: Vec::new(),
            exit: 0,
            flood: FloodMap { reached: Vec::new(), dist: Vec::new() },
            seeded_tiles: Vec::new(),
            centre_carved: false,
        }
    }

    /// The level is finished: see `level_ok`; the spawn regions partition it.
    /// The level is the seeded tiles after all the generations, with the
    /// start picked on the middle row, pruned to what the flood reached and
    /// the stairs on its farthest tile.
    pub open spec fn built(&self) -> bool {
        let w = MAPWIDTH as int;
        let h = MAPHEIGHT as int;
        let grown = evolved(self.seeded_tiles@, w, h, GENERATIONS as int);
        &&& level_ok(self.map, self.starting_position, self.exit as int)
        &&& stairs_farthest(self.map, self.starting_position, self.exit as int, self.flood)
        &&& regions_ok(self.map, self.noise_areas@)
        &&& self.seeded_tiles@.len() == w * h
        &&& forall|i: int|
            0 <= i < w * h ==> if interior(w, h, i) {
                #[trigger] self.seeded_tiles@[i] == TileType::Floor || self.seeded_tiles@[i] == TileType::Wall
            } else {
                self.seeded_tiles@[i] == TileType::Wall
            }
        &&& self.map.tiles@ == crate::flood::pruned(
            if self.centre_carved { grown.update(idx_of(w, w / 2, h / 2), TileType::Floor) } else { grown },
            self.flood.reached@,
        ).update(self.exit as int, TileType::DownStairs)
    }

    /// Seeds the inner tiles at random, runs the automaton, starts the player
    /// on the first floor tile at or left of the centre of the middle row (the
    /// centre itself is made floor when there is none), removes what cannot
    /// be reached and puts the stairs on the farthest tile.
    pub fn build(&mut self, rng: &mut RandomNumberGenerator)
        ensures
            final(self).built(),
            final(self).map.width == MAPWIDTH as i32,
            final(self).map.height == MAPHEIGHT as i32,
            forall|i: int|
                0 <= i < final(self).map.tiles@.len() && !interior(MAPWIDTH as int, MAPHEIGHT as int, i)
                    ==> #[trigger] final(self).map.tiles@[i] == TileType::Wall,
            final(self).starting_position.y == MAPHEIGHT as i32 / 2,
            0 <= final(self).starting_position.x <= MAPWIDTH as i32 / 2,
            forall|x: int|
                final(self).starting_position.x < x <= MAPWIDTH as i32 / 2 ==> final(self).map.tiles@[#[trigger] idx_of(
                    MAPWIDTH as int,
                    x,
                    MAPHEIGHT as i32 / 2,
                )] == TileType::Wall,
    {
        self.map = GridMap::new(self.depth);
        randomize_interior(&mut self.map, rng);
        self.seeded_tiles = revealed_copy(&self.map).tiles;
        let ghost seeded = self.seeded_tiles@;
        assert(seeded.len() == MAPWIDTH * MAPHEIGHT);
        record_snapshot(&self.map, &mut self.history, self.visualize);
        let mut g: usize = 0;
        while g < GENERATIONS
            invariant
                self.map.wf(),
                self.map.width == MAPWIDTH as i32,
                self.map.height == MAPHEIGHT as i32,
                forall|i: int| 0 <= i < self.map.tiles@.len() ==> #[trigger] self.map.tiles@[i] != TileType::DownStairs,
                forall|i: int|
                    0 <= i < self.map.tiles@.len() && !interior(MAPWIDTH as int, MAPHEIGHT as int, i)
                        ==> #[trigger] self.map.tiles@[i] == TileType::Wall,
                g <= GENERATIONS,
                self.seeded_tiles@ == seeded,
                seeded.len() == MAPWIDTH * MAPHEIGHT,
                forall|i: int|
                    0 <= i < MAPWIDTH * MAPHEIGHT ==> if interior(MAPWIDTH as int, MAPHEIGHT as int, i) {
                        #[trigger] seeded[i] == TileType::Floor || seeded[i] == TileType::Wall
                    } else {
                        seeded[i] == TileType::Wall
                    },
                self.map.tiles@ == evolved(self.seeded_tiles@, MAPWIDTH as int, MAPHEIGHT as int, g as int),
            decreases GENERATIONS - g,
        {
            automaton_generation(&mut self.map);
            record_snapshot(&self.map, &mut self.history, self.visualize);
            g = g + 1;
        }
        let cx = self.map.width / 2;
        let cy = self.map.height / 2;
        let ghost grown = self.map.tiles@;
        let (sx, carved) = start_left_of_centre(&mut self.map);
        self.centre_carved = carved;
        self.starting_position = Position { x: sx, y: cy };
        let start_idx = self.map.xy_idx(sx, cy).unwrap();
        let ghost t0 = self.map.tiles@;
        proof {
            crate::map::lemma_idx_in_range(MAPWIDTH as int, MAPHEIGHT as int, cx as int, cy as int);
            assert(interior(MAPWIDTH as int, MAPHEIGHT as int, idx_of(MAPWIDTH as int, cx as int, cy as int)));
            assert forall|i: int| 0 <= i < t0.len() && !interior(MAPWIDTH as int, MAPHEIGHT as int, i)
                implies #[trigger] t0[i] == TileType::Wall by {}
            assert forall|x: int| sx < x <= cx implies t0[#[trigger] idx_of(MAPWIDTH as int, x, cy as int)] == TileType::Wall by {
                crate::map::lemma_idx_in_range(MAPWIDTH as int, MAPHEIGHT as int, x, cy as int);
                let i = idx_of(MAPWIDTH as int, x, cy as int);
                assert(grown[i] != TileType::Floor);
                assert(grown[i] != TileType::DownStairs);
            }
        }
        let (exit, flood) = finish_with_stairs(&mut self.map, start_idx);
        self.exit = exit;
        self.flood = flood;
        record_snapshot(&self.map, &mut self.history, self.visualize);
        self.noise_areas = generate_voronoi_spawn_regions(&self.map, rng);
    }
}

impl MapBuilder for CellularAutomataBuilder {
    open spec fn finished(&self) -> bool {
        self.built()
    }

    open spec fn current_map(&self) -> GridMap {
        self.map
    }

    open spec fn snapshots(&self) -> Seq<GridMap> {
        self.history@
    }

    open spec fn visualizing(&self) -> bool {
        self.visualize
    }

    fn build_map(&mut self, rng: &mut RandomNumberGenerator) {
        self.build(rng);
    }

    fn get_map(&self) -> GridMap {
        self.map.clone()
    }

    fn get_starting_position(&self) -> Position {
        self.starting_position
    }

    fn get_snapshot_history(&self) -> Vec<GridMap> {
        self.history.clone()
    }

    fn get_spawn_list(&self) -> Vec<(usize, String)> {
        Vec::new()
    }

    fn take_snapshot(&mut self) {
        if self.map.is_well_formed() {
            record_snapshot(&self.map, &mut self.history, self.visualize);
        }
    }
}

} // verus!
