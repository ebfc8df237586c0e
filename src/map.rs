use vstd::prelude::*;

verus! {

/// Width of a freshly created level map.
pub const MAPWIDTH: usize = 80;

/// Height of a freshly created level map.
pub const MAPHEIGHT: usize = 43;

/// Number of tiles of a freshly created level map.
pub const MAPCOUNT: usize = 3440;

/// Largest width or height a map may have.
pub const MAX_DIM: i32 = 1024;

#[derive(Clone, Copy, PartialEq, Eq, Structural, Debug, Hash)]
pub enum TileType {
    DownStairs,
    Floor,
    Wall,
}

/// A tile permits movement unless it is a wall.
pub open spec fn walkable(t: TileType) -> bool {
    t != TileType::Wall
}

/// Row-major index of (x, y) on a map of width `w`.
pub open spec fn idx_of(w: int, x: int, y: int) -> int {
    y * w + x
}

pub open spec fn in_bounds(w: int, h: int, x: int, y: int) -> bool {
    0 <= x < w && 0 <= y < h
}

/// Column of a tile index.
pub open spec fn col_of(w: int, i: int) -> int {
    i % w
}

/// Row of a tile index.
pub open spec fn row_of(w: int, i: int) -> int {
    i / w
}

/// Number of tiles of kind `k` in `s`.
pub open spec fn count_kind(s: Seq<TileType>, k: TileType) -> nat
    decreases s.len(),
{
    if s.len() == 0 {
        0
    } else {
        count_kind(s.drop_last(), k) + if s.last() == k { 1nat } else { 0nat }
    }
}

pub proof fn lemma_idx_in_range(w: int, h: int, x: int, y: int)
    requires
        in_bounds(w, h, x, y),
    ensures
        0 <= idx_of(w, x, y) < w * h,
        col_of(w, idx_of(w, x, y)) == x,
        row_of(w, idx_of(w, x, y)) == y,
{
    assert(0 <= y * w) by (nonlinear_arith)
        requires
            0 <= y,
            0 < w,
    ;
    assert(y * w + x < w * h) by (nonlinear_arith)
        requires
            0 <= x < w,
            0 <= y < h,
    ;
    vstd::arithmetic::div_mod::lemma_fundamental_div_mod_converse(y * w + x, w, y, x);
}

pub proof fn lemma_idx_decompose(w: int, h: int, i: int)
    requires
        0 < w,
        0 < h,
        0 <= i < w * h,
    ensures
        in_bounds(w, h, col_of(w, i), row_of(w, i)),
        idx_of(w, col_of(w, i), row_of(w, i)) == i,
{
    vstd::arithmetic::div_mod::lemma_fundamental_div_mod(i, w);
    vstd::arithmetic::mul::lemma_mul_is_commutative(w, i / w);
    vstd::arithmetic::div_mod::lemma_div_pos_is_pos(i, w);
    vstd::arithmetic::div_mod::lemma_mod_bound(i, w);
    vstd::arithmetic::div_mod::lemma_div_is_ordered(i, w * h, w);
    vstd::arithmetic::div_mod::lemma_div_by_multiple(h, w);
    assert((w * h) / w == h) by {
        vstd::arithmetic::mul::lemma_mul_is_commutative(w, h);
    }
    if i / w >= h {
        assert(w * (i / w) >= w * h) by (nonlinear_arith)
            requires
                i / w >= h,
                w > 0,
        ;
    }
}

/// The grid a level is played on.
#[derive(Clone, Debug)]
pub struct GridMap {
    pub tiles: Vec<TileType>,
    pub width: i32,
    pub height: i32,
    pub revealed_tiles: Vec<bool>,
    pub visible_tiles: Vec<bool>,
    pub blocked: Vec<bool>,
    pub depth: i32,
    pub bloodstains: Vec<usize>,
    /// Ids of the entities standing on each tile.
    pub tile_content: Vec<Vec<u32>>,
}

impl GridMap {
    /// The parallel per-tile arrays all have one entry per tile.
    pub open spec fn wf(&self) -> bool {
        &&& 1 <= self.width <= MAX_DIM
        &&& 1 <= self.height <= MAX_DIM
        &&& self.tiles@.len() == self.width * self.height
        &&& self.revealed_tiles@.len() == self.tiles@.len()
        &&& self.visible_tiles@.len() == self.tiles@.len()
        &&& self.blocked@.len() == self.tiles@.len()
        &&& self.tile_content@.len() == self.tiles@.len()
    }

    /// Same dimensions and per-tile state as `other`, tiles aside.
    pub open spec fn same_shape(&self, other: &GridMap) -> bool {
        &&& self.width == other.width
        &&& self.height == other.height
        &&& self.tiles@.len() == other.tiles@.len()
        &&& self.revealed_tiles@ == other.revealed_tiles@
        &&& self.visible_tiles@ == other.visible_tiles@
        &&& self.blocked@ == other.blocked@
        &&& self.depth == other.depth
        &&& self.bloodstains@ == other.bloodstains@
        &&& self.tile_content@ == other.tile_content@
    }

    /// A map as `new` makes it: standard size, all wall, nothing seen or
    /// blocked, nobody on it.
    pub open spec fn fresh(&self, depth: i32) -> bool {
        &&& self.wf()
        &&& self.width == MAPWIDTH
        &&& self.height == MAPHEIGHT
        &&& self.depth == depth
        &&& self.tiles@ == Seq::new(MAPCOUNT as nat, |i: int| TileType::Wall)
        &&& self.revealed_tiles@ == Seq::new(MAPCOUNT as nat, |i: int| false)
        &&& self.visible_tiles@ == Seq::new(MAPCOUNT as nat, |i: int| false)
        &&& self.blocked@ == Seq::new(MAPCOUNT as nat, |i: int| false)
        &&& self.bloodstains@.len() == 0
        &&& forall|i: int| 0 <= i < MAPCOUNT ==> (#[trigger] self.tile_content@[i])@.len() == 0
    }

    pub open spec fn in_map(&self, x: int, y: int) -> bool {
        in_bounds(self.width as int, self.height as int, x, y)
    }

    pub open spec fn idx(&self, x: int, y: int) -> int {
        idx_of(self.width as int, x, y)
    }

    /// Whether the per-tile arrays match the dimensions.
    pub fn is_well_formed(&self) -> (r: bool)
        ensures
            r == self.wf(),
    {
        if !(1 <= self.width && self.width <= MAX_DIM && 1 <= self.height && self.height <= MAX_DIM) {
            return false;
        }
        proof {
            assert(self.width * self.height <= 1024 * 1024) by (nonlinear_arith)
                requires
                    1 <= self.width <= 1024,
                    1 <= self.height <= 1024,
            ;
        }
        self.tiles.len() == (self.width as usize) * (self.height as usize)
            && self.revealed_tiles.len() == self.tiles.len() && self.visible_tiles.len()
            == self.tiles.len() && self.blocked.len() == self.tiles.len()
            && self.tile_content.len() == self.tiles.len()
    }

    /// A map of the standard size, all wall, nothing revealed.
    pub fn new(new_depth: i32) -> (r: GridMap)
        ensures
            r.fresh(new_depth),
            r.wf(),
            r.width == MAPWIDTH,
            r.height == MAPHEIGHT,
            r.depth == new_depth,
            r.tiles@ == Seq::new(MAPCOUNT as nat, |i: int| TileType::Wall),
            r.revealed_tiles@ == Seq::new(MAPCOUNT as nat, |i: int| false),
            r.visible_tiles@ == Seq::new(MAPCOUNT as nat, |i: int| false),
            r.blocked@ == Seq::new(MAPCOUNT as nat, |i: int| false),
            r.bloodstains@.len() == 0,
            forall|i: int| 0 <= i < MAPCOUNT ==> (#[trigger] r.tile_content@[i])@.len() == 0,
    {
        let mut tiles: Vec<TileType> = Vec::new();
        let mut revealed: Vec<bool> = Vec::new();
        let mut visible: Vec<bool> = Vec::new();
        let mut blocked: Vec<bool> = Vec::new();
        let mut content: Vec<Vec<u32>> = Vec::new();
        let mut i: usize = 0;
        while i < MAPCOUNT
            invariant
                i <= MAPCOUNT,
                tiles@ == Seq::new(i as nat, |j: int| TileType::Wall),
                revealed@ == Seq::new(i as nat, |j: int| false),
                visible@ == Seq::new(i as nat, |j: int| false),
                blocked@ == Seq::new(i as nat, |j: int| false),
                content@.len() == i,
                forall|j: int| 0 <= j < i ==> (#[trigger] content@[j])@.len() == 0,
            decreases MAPCOUNT - i,
        {
            tiles.push(TileType::Wall);
            revealed.push(false);
            visible.push(false);
            blocked.push(false);
            content.push(Vec::new());
            i = i + 1;
        }
        GridMap {
            tiles,
            width: MAPWIDTH as i32,
            height: MAPHEIGHT as i32,
            revealed_tiles: revealed,
            visible_tiles: visible,
            blocked,
            depth: new_depth,
            bloodstains: Vec::new(),
            tile_content: content,
        }
    }

    /// Index of (x, y), or `None` when the point lies off the map.
    pub fn xy_idx(&self, x: i32, y: i32) -> (r: Option<usize>)
        requires
            self.wf(),
        ensures
            r.is_some() <==> self.in_map(x as int, y as int),
            r.is_some() ==> r.unwrap() == self.idx(x as int, y as int),
            r.is_some() ==> r.unwrap() < self.tiles@.len(),
    {
        if x >= 0 && x < self.width && y >= 0 && y < self.height {
            proof {
                lemma_idx_in_range(self.width as int, self.height as int, x as int, y as int);
                assert((y as int) * (self.width as int) <= 1024 * 1024) by (nonlinear_arith)
                    requires
                        0 <= y <= 1024,
                        0 <= self.width <= 1024,
                ;
            }
            Some((y as usize * self.width as usize) + x as usize)
        } else {
            None
        }
    }

    /// Whether (x, y) lies on the map.
    pub fn xy_idx_ok(&self, x: i32, y: i32) -> (r: bool)
        ensures
            r == self.in_map(x as int, y as int),
    {
        x >= 0 && x < self.width && y >= 0 && y < self.height
    }

    /// Recomputes `blocked` as exactly the wall tiles.
    pub fn populate_blocked(&mut self)
        requires
            old(self).wf(),
        ensures
            final(self).wf(),
            final(self).tiles@ == old(self).tiles@,
            final(self).width == old(self).width,
            final(self).height == old(self).height,
            final(self).revealed_tiles@ == old(self).revealed_tiles@,
            final(self).visible_tiles@ == old(self).visible_tiles@,
            final(self).tile_content@ == old(self).tile_content@,
            final(self).depth == old(self).depth,
            final(self).bloodstains@ == old(self).bloodstains@,
            final(self).blocked@ == old(self).tiles@.map_values(|t: TileType| t == TileType::Wall),
    {
        let n = self.tiles.len();
        let mut i: usize = 0;
        while i < n
            invariant
                self.wf(),
                n == self.tiles@.len(),
                i <= n,
                self.tiles@ == old(self).tiles@,
                self.width == old(self).width,
                self.height == old(self).height,
                self.revealed_tiles@ == old(self).revealed_tiles@,
                self.visible_tiles@ == old(self).visible_tiles@,
                self.tile_content@ == old(self).tile_content@,
                self.depth == old(self).depth,
                self.bloodstains@ == old(self).bloodstains@,
                forall|j: int| 0 <= j < i ==> self.blocked@[j] == (self.tiles@[j] == TileType::Wall),
            decreases n - i,
        {
            let is_wall = self.tiles[i] == TileType::Wall;
            self.blocked.set(i, is_wall);
            i = i + 1;
        }
        assert(self.blocked@ =~= old(self).tiles@.map_values(|t: TileType| t == TileType::Wall));
    }

    /// Empties the entity list of every tile.
    pub fn clear_content_index(&mut self)
        requires
            old(self).wf(),
        ensures
            final(self).wf(),
            final(self).tiles@ == old(self).tiles@,
            final(self).width == old(self).width,
            final(self).height == old(self).height,
            final(self).revealed_tiles@ == old(self).revealed_tiles@,
            final(self).visible_tiles@ == old(self).visible_tiles@,
            final(self).blocked@ == old(self).blocked@,
            final(self).depth == old(self).depth,
            final(self).bloodstains@ == old(self).bloodstains@,
            final(self).tile_content@.len() == old(self).tile_content@.len(),
            forall|i: int|
                0 <= i < final(self).tile_content@.len() ==> (#[trigger] final(self).tile_content@[i])@.len() == 0,
    {
        let n = self.tile_content.len();
        let mut i: usize = 0;
        while i < n
            invariant
                self.wf(),
                n == self.tile_content@.len(),
                i <= n,
                self.tiles@ == old(self).tiles@,
                self.width == old(self).width,
                self.height == old(self).height,
                self.revealed_tiles@ == old(self).revealed_tiles@,
                self.visible_tiles@ == old(self).visible_tiles@,
                self.blocked@ == old(self).blocked@,
                self.depth == old(self).depth,
                self.bloodstains@ == old(self).bloodstains@,
                forall|j: int| 0 <= j < i ==> (#[trigger] self.tile_content@[j])@.len() == 0,
            decreases n - i,
        {
            self.tile_content.set(i, Vec::new());
            i = i + 1;
        }
    }
}

/// Number of tiles of kind `k` in `t`.
pub fn count_tiles(t: &Vec<TileType>, k: TileType) -> (r: usize)
    ensures
        r == count_kind(t@, k),
{
    let mut c: usize = 0;
    let mut i: usize = 0;
    while i < t.len()
        invariant
            i <= t@.len(),
            c == count_kind(t@.subrange(0, i as int), k),
            c <= i,
        decreases t@.len() - i,
    {
        assert(t@.subrange(0, i as int + 1).drop_last() =~= t@.subrange(0, i as int));
        if t[i] == k {
            c = c + 1;
        }
        i = i + 1;
    }
    assert(t@.subrange(0, t@.len() as int) =~= t@);
    c
}

/// Step offsets a mover may take, in the order exits are listed, with their
/// costs: four along rows and columns (100), then four diagonals (145).
pub open spec fn step_offset(k: int) -> (int, int, u64) {
    if k == 0 {
        (-1, 0, 100)
    } else if k == 1 {
        (1, 0, 100)
    } else if k == 2 {
        (0, -1, 100)
    } else if k == 3 {
        (0, 1, 100)
    } else if k == 4 {
        (-1, -1, 145)
    } else if k == 5 {
        (1, -1, 145)
    } else if k == 6 {
        (-1, 1, 145)
    } else {
        (1, 1, 145)
    }
}

/// (x, y) is an inner tile, or on the right or bottom edge, and not blocked.
pub open spec fn exit_valid(m: GridMap, x: int, y: int) -> bool {
    1 <= x <= m.width - 1 && 1 <= y <= m.height - 1 && !m.blocked@[m.idx(x, y)]
}

/// The exits from (x, y) among the first `k` step offsets.
pub open spec fn exits_upto(m: GridMap, x: int, y: int, k: int) -> Seq<(usize, u64)>
    decreases k,
{
    if k <= 0 {
        Seq::empty()
    } else {
        let (dx, dy, c) = step_offset(k - 1);
        exits_upto(m, x, y, k - 1) + if exit_valid(m, x + dx, y + dy) {
            seq![(m.idx(x + dx, y + dy) as usize, c)]
        } else {
            Seq::empty()
        }
    }
}

/// Wall tile that has been revealed.
pub open spec fn revealed_wall(m: GridMap, x: int, y: int) -> bool {
    m.tiles@[m.idx(x, y)] == TileType::Wall && m.revealed_tiles@[m.idx(x, y)]
}

/// Which of the four neighbours are revealed walls: 1 north, 2 south,
/// 4 west, 8 east.
pub open spec fn wall_mask(m: GridMap, x: int, y: int) -> int {
    (if revealed_wall(m, x, y - 1) { 1int } else { 0int }) + (if revealed_wall(m, x, y + 1) { 2int } else { 0int })
        + (if revealed_wall(m, x - 1, y) { 4int } else { 0int }) + (if revealed_wall(m, x + 1, y) { 8int } else { 0int })
}

/// Code page 437 glyph for a wall with the given neighbour mask.
pub open spec fn glyph_for_mask(mask: int) -> u8 {
    if mask == 0 {
        9
    } else if mask == 1 || mask == 2 || mask == 3 {
        186
    } else if mask == 4 || mask == 8 || mask == 12 {
        205
    } else if mask == 5 {
        188
    } else if mask == 6 {
        187
    } else if mask == 7 {
        185
    } else if mask == 9 {
        200
    } else if mask == 10 {
        201
    } else if mask == 11 {
        204
    } else if mask == 13 {
        202
    } else if mask == 14 {
        203
    } else {
        35
    }
}

impl GridMap {
    /// Whether the tile at `idx` blocks sight.
    pub fn is_opaque(&self, idx: usize) -> (r: bool)
        requires
            idx < self.tiles@.len(),
        ensures
            r == (self.tiles@[idx as int] == TileType::Wall),
    {
        self.tiles[idx] == TileType::Wall
    }

    /// Whether a mover may step onto (x, y).
    pub fn is_exit_valid(&self, x: i32, y: i32) -> (r: bool)
        requires
            self.wf(),
        ensures
            r == exit_valid(*self, x as int, y as int),
    {
        if x < 1 || x > self.width - 1 || y < 1 || y > self.height - 1 {
            return false;
        }
        let idx = self.xy_idx(x, y).unwrap();
        !self.blocked[idx]
    }

    /// The tiles a mover on tile `idx` may step to, with the cost of the step.
    pub fn get_available_exits(&self, idx: usize) -> (r: Vec<(usize, u64)>)
        requires
            self.wf(),
            idx < self.tiles@.len(),
        ensures
            r@ == exits_upto(*self, col_of(self.width as int, idx as int), row_of(self.width as int, idx as int), 8),
    {
        proof {
            lemma_idx_decompose(self.width as int, self.height as int, idx as int);
        }
        let x = (idx % (self.width as usize)) as i32;
        let y = (idx / (self.width as usize)) as i32;
        let mut exits: Vec<(usize, u64)> = Vec::new();
        let offsets: [(i32, i32, u64); 8] = [
            (-1, 0, 100),
            (1, 0, 100),
            (0, -1, 100),
            (0, 1, 100),
            (-1, -1, 145),
            (1, -1, 145),
            (-1, 1, 145),
            (1, 1, 145),
        ];
        let mut k: usize = 0;
        while k < 8
            invariant
                self.wf(),
                0 <= x < self.width,
                0 <= y < self.height,
                k <= 8,
                forall|j: int|
                    0 <= j < 8 ==> (#[trigger] offsets@[j]).0 == step_offset(j).0 && offsets@[j].1 == step_offset(j).1
                        && offsets@[j].2 == step_offset(j).2,
                exits@ == exits_upto(*self, x as int, y as int, k as int),
            decreases 8 - k,
        {
            let (dx, dy, c) = offsets[k];
            if self.is_exit_valid(x + dx, y + dy) {
                let j = self.xy_idx(x + dx, y + dy).unwrap();
                exits.push((j, c));
            }
            k = k + 1;
        }
        exits
    }
}

/// Whether (x, y) is a wall the player has seen.
pub fn is_revealed_and_wall(map: &GridMap, x: i32, y: i32) -> (r: bool)
    requires
        map.wf(),
        map.in_map(x as int, y as int),
    ensures
        r == revealed_wall(*map, x as int, y as int),
{
    let idx = map.xy_idx(x, y).unwrap();
    map.tiles[idx] == TileType::Wall && map.revealed_tiles[idx]
}

/// The glyph a wall at (x, y) is drawn with, joining it to the revealed
/// walls beside it; `#` on the outer ring.
pub fn wall_glyph(map: &GridMap, x: i32, y: i32) -> (r: u8)
    requires
        map.wf(),
    ensures
        r == if x < 1 || x > map.width - 2 || y < 1 || y > map.height - 2 {
            35u8
        } else {
            glyph_for_mask(wall_mask(*map, x as int, y as int))
        },
{
    if x < 1 || x > map.width - 2 || y < 1 || y > map.height - 2 {
        return 35;
    }
    let mut mask: u8 = 0;
    if is_revealed_and_wall(map, x, y - 1) {
        mask = mask + 1;
    }
    if is_revealed_and_wall(map, x, y + 1) {
        mask = mask + 2;
    }
    if is_revealed_and_wall(map, x - 1, y) {
        mask = mask + 4;
    }
    if is_revealed_and_wall(map, x + 1, y) {
        mask = mask + 8;
    }
    match mask {
        0 => 9,
        1 => 186,
        2 => 186,
        3 => 186,
        4 => 205,
        5 => 188,
        6 => 187,
        7 => 185,
        8 => 205,
        9 => 200,
        10 => 201,
        11 => 204,
        12 => 205,
        13 => 202,
        14 => 203,
        _ => 35,
    }
}

} // verus!
