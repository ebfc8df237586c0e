use vstd::prelude::*;
use rltk::RandomNumberGenerator;
use crate::builder::{MapBuilder, level_ok, record_snapshot, stairs_farthest};
use crate::cellular_automata::start_left_of_centre;
use crate::components::Position;
use crate::drunkard::no_stairs;
use crate::flood::{FloodMap, finish_with_stairs};
use crate::map::{GridMap, TileType, MAPCOUNT, MAPWIDTH, MAPHEIGHT, idx_of, in_bounds};
use crate::random::roll_die;
use crate::registry::BaseBuilder;
use crate::spawn_regions::{generate_voronoi_spawn_regions, regions_ok};

verus! {

/// Side of a pattern, in tiles.
pub const CHUNK_SIZE: usize = 8;

/// Collapses tried before a build gives up.
pub const MAX_ATTEMPTS: usize = 500;

/// Directions between neighbouring chunks: north, south, west, east.
pub const NORTH: usize = 0;

pub const SOUTH: usize = 1;

pub const WEST: usize = 2;

pub const EAST: usize = 3;

/// The patterns found in a map and which may sit next to which:
/// `allowed[(a * 4 + d) * n + b]` says pattern `b` may lie in direction `d`
/// of pattern `a`, where `n` is the number of patterns.
pub struct Constraints {
    pub patterns: Vec<Vec<TileType>>,
    pub allowed: Vec<bool>,
}

impl Constraints {
    pub open spec fn wf(&self) -> bool {
        &&& self.patterns@.len() >= 1
        &&& self.patterns@.len() <= 4096
        &&& self.allowed@.len() == self.patterns@.len() * 4 * self.patterns@.len()
        &&& forall|i: int| 0 <= i < self.patterns@.len() ==> (#[trigger] self.patterns@[i])@.len() == CHUNK_SIZE * CHUNK_SIZE
    }

    pub open spec fn allows(&self, a: int, d: int, b: int) -> bool {
        self.allowed@[(a * 4 + d) * self.patterns@.len() + b]
    }
}

/// Chunk `c` of a grid `cw` chunks wide, and its neighbour in direction `d`.
pub open spec fn neighbor_of(cw: int, ch: int, c: int, d: int) -> Option<int> {
    let x = c % cw;
    let y = c / cw;
    if d == 0 && y > 0 {
        Some(c - cw)
    } else if d == 1 && y < ch - 1 {
        Some(c + cw)
    } else if d == 2 && x > 0 {
        Some(c - 1)
    } else if d == 3 && x < cw - 1 {
        Some(c + 1)
    } else {
        None
    }
}

proof fn lemma_neighbor_range(cw: int, ch: int, c: int, d: int)
    requires
        1 <= cw,
        1 <= ch,
        0 <= c < cw * ch,
    ensures
        neighbor_of(cw, ch, c, d) is Some ==> 0 <= neighbor_of(cw, ch, c, d)->0 < cw * ch,
{
    crate::map::lemma_idx_decompose(cw, ch, c);
    let x = c % cw;
    let y = c / cw;
    assert(c >= cw * y) by (nonlinear_arith)
        requires
            c == y * cw + x,
            0 <= x,
    ;
    if y >= 1 {
        assert(c >= cw) by (nonlinear_arith)
            requires
                c == y * cw + x,
                0 <= x,
                y >= 1,
                cw >= 1,
        ;
    }
    if y + 1 < ch {
        assert((y + 2) * cw <= ch * cw) by (nonlinear_arith)
            requires
                y + 2 <= ch,
                cw >= 1,
        ;
        assert(c + cw < (y + 2) * cw) by (nonlinear_arith)
            requires
                c == y * cw + x,
                x < cw,
        ;
        assert(ch * cw == cw * ch) by (nonlinear_arith);
    }
    if x + 1 < cw {
        assert((y + 1) * cw <= ch * cw) by (nonlinear_arith)
            requires
                y + 1 <= ch,
                cw >= 1,
        ;
        assert(c + 1 < (y + 1) * cw) by (nonlinear_arith)
            requires
                c == y * cw + x,
                x + 1 < cw,
        ;
        assert(ch * cw == cw * ch) by (nonlinear_arith);
    }
}

/// Every chunk holds a pattern, and each pattern allows the pattern of each
/// of its neighbours in that neighbour's direction.
pub open spec fn assignment_ok(k: &Constraints, cw: int, ch: int, a: Seq<usize>) -> bool {
    &&& a.len() == cw * ch
    &&& forall|c: int| 0 <= c < a.len() ==> #[trigger] a[c] < k.patterns@.len()
    &&& forall|c: int, d: int|
        0 <= c < a.len() && 0 <= d < 4 && (#[trigger] neighbor_of(cw, ch, c, d)) is Some ==> k.allows(
            a[c] as int,
            d,
            a[neighbor_of(cw, ch, c, d)->0] as int,
        )
}

proof fn lemma_allowed_index(n: int, a: int, d: int, b: int)
    requires
        0 <= a < n,
        0 <= d < 4,
        0 <= b < n,
        n <= 4096,
    ensures
        0 <= (a * 4 + d) * n + b < n * 4 * n,
        0 <= (a * 4 + d) * n < n * 4 * n,
        n * 4 * n <= 4096 * 4 * 4096,
{
    assert(0 <= (a * 4 + d) * n + b < n * 4 * n) by (nonlinear_arith)
        requires
            0 <= a < n,
            0 <= d < 4,
            0 <= b < n,
    ;
    assert(n * 4 * n <= 4096 * 4 * 4096) by (nonlinear_arith)
        requires
            0 <= n <= 4096,
    ;
}

fn allowed_at(k: &Constraints, a: usize, d: usize, b: usize) -> (r: bool)
    requires
        k.wf(),
        a < k.patterns@.len(),
        d < 4,
        b < k.patterns@.len(),
    ensures
        r == k.allows(a as int, d as int, b as int),
{
    let n = k.patterns.len();
    proof {
        lemma_allowed_index(n as int, a as int, d as int, b as int);
    }
    k.allowed[(a * 4 + d) * n + b]
}

/// The neighbour of chunk `c` in direction `d`.
pub fn neighbor(cw: usize, ch: usize, c: usize, d: usize) -> (r: Option<usize>)
    requires
        1 <= cw <= 1024,
        1 <= ch <= 1024,
        c < cw * ch,
    ensures
        r is Some <==> neighbor_of(cw as int, ch as int, c as int, d as int) is Some,
        r is Some ==> r->0 as int == neighbor_of(cw as int, ch as int, c as int, d as int)->0,
        r is Some ==> r->0 < cw * ch,
{
    let x = c % cw;
    let y = c / cw;
    proof {
        assert(cw * ch <= 1024 * 1024) by (nonlinear_arith)
            requires
                1 <= cw <= 1024,
                1 <= ch <= 1024,
        ;
        crate::map::lemma_idx_decompose(cw as int, ch as int, c as int);
        assert(c >= cw * y) by (nonlinear_arith)
            requires
                c == y * cw + x,
                0 <= x,
        ;
        assert(y + 1 < ch ==> c + cw < cw * ch) by (nonlinear_arith)
            requires
                c == y * cw + x,
                x < cw,
                0 <= y,
        ;
        assert(x + 1 < cw ==> c + 1 < cw * ch) by (nonlinear_arith)
            requires
                c == y * cw + x,
                0 <= y < ch,
        ;
    }
    if d == 0 && y > 0 {
        proof {
            assert(c >= cw) by (nonlinear_arith)
                requires
                    c == y * cw + x,
                    y >= 1,
                    0 <= x,
            ;
        }
        Some(c - cw)
    } else if d == 1 && y + 1 < ch {
        Some(c + cw)
    } else if d == 2 && x > 0 {
        Some(c - 1)
    } else if d == 3 && x + 1 < cw {
        Some(c + 1)
    } else {
        None
    }
}

/// Whether `a` meets `assignment_ok`.
pub fn check_assignment(k: &Constraints, cw: usize, ch: usize, a: &Vec<usize>) -> (r: bool)
    requires
        k.wf(),
        1 <= cw <= 1024,
        1 <= ch <= 1024,
    ensures
        r == assignment_ok(k, cw as int, ch as int, a@),
{
    proof {
        assert(cw * ch <= 1024 * 1024) by (nonlinear_arith)
            requires
                1 <= cw <= 1024,
                1 <= ch <= 1024,
        ;
    }
    if a.len() != cw * ch {
        return false;
    }
    let n = k.patterns.len();
    let mut c: usize = 0;
    while c < a.len()
        invariant
            k.wf(),
            n == k.patterns@.len(),
            1 <= cw <= 1024,
            1 <= ch <= 1024,
            a@.len() == cw * ch,
            c <= a@.len(),
            forall|j: int| 0 <= j < c ==> #[trigger] a@[j] < n,
        decreases a@.len() - c,
    {
        if a[c] >= n {
            return false;
        }
        c = c + 1;
    }
    let mut c: usize = 0;
    while c < a.len()
        invariant
            k.wf(),
            n == k.patterns@.len(),
            1 <= cw <= 1024,
            1 <= ch <= 1024,
            a@.len() == cw * ch,
            c <= a@.len(),
            forall|j: int| 0 <= j < a@.len() ==> #[trigger] a@[j] < n,
            forall|j: int, d: int|
                0 <= j < c && 0 <= d < 4 && (#[trigger] neighbor_of(cw as int, ch as int, j, d)) is Some
                    ==> k.allows(a@[j] as int, d, a@[neighbor_of(cw as int, ch as int, j, d)->0] as int),
        decreases a@.len() - c,
    {
        let mut d: usize = 0;
        while d < 4
            invariant
                k.wf(),
                n == k.patterns@.len(),
                1 <= cw <= 1024,
                1 <= ch <= 1024,
                a@.len() == cw * ch,
                c < a@.len(),
                d <= 4,
                forall|j: int| 0 <= j < a@.len() ==> #[trigger] a@[j] < n,
                forall|j: int, e: int|
                    0 <= j < c && 0 <= e < 4 && (#[trigger] neighbor_of(cw as int, ch as int, j, e)) is Some
                        ==> k.allows(a@[j] as int, e, a@[neighbor_of(cw as int, ch as int, j, e)->0] as int),
                forall|e: int|
                    0 <= e < d && (#[trigger] neighbor_of(cw as int, ch as int, c as int, e)) is Some
                        ==> k.allows(a@[c as int] as int, e, a@[neighbor_of(cw as int, ch as int, c as int, e)->0] as int),
            decreases 4 - d,
        {
            if let Some(v) = neighbor(cw, ch, c, d) {
                if !allowed_at(k, a[c], d, a[v]) {
                    proof {
                        assert(neighbor_of(cw as int, ch as int, c as int, d as int) is Some);
                    }
                    return false;
                }
            }
            d = d + 1;
        }
        c = c + 1;
    }
    true
}

/// The table `k` is the one a layout `chunks` of `cw` by `ch` chunks
/// gives: `chunks` meets it, and each pair it allows occurs in `chunks`.
#[verifier::opaque]
pub open spec fn table_from(k: &Constraints, cw: int, ch: int, chunks: Seq<usize>) -> bool {
    &&& assignment_ok(k, cw, ch, chunks)
    &&& forall|a: int, d: int, b: int|
        0 <= a < k.patterns@.len() && 0 <= d < 4 && 0 <= b < k.patterns@.len() && #[trigger] k.allows(a, d, b)
            ==> exists|c: int|
            0 <= c < cw * ch && chunks[c] == a && neighbor_of(cw, ch, c, d) is Some && chunks[neighbor_of(
                cw,
                ch,
                c,
                d,
            )->0] == b
}

proof fn lemma_cell_slot(g: int, n: int, c: int, q: int)
    requires
        0 <= c < g,
        0 <= q < n,
        g <= 4096,
        n <= 4096,
    ensures
        0 <= c * n + q < g * n,
        0 <= c * n < g * n,
        g * n <= 16384 * 4096,
{
    assert(0 <= c * n + q < g * n) by (nonlinear_arith)
        requires
            0 <= c < g,
            0 <= q < n,
    ;
    assert(g * n <= 16384 * 4096) by (nonlinear_arith)
        requires
            0 <= g <= 4096,
            0 <= n <= 4096,
    ;
}

/// Whether two patterns hold the same tiles.
fn same_pattern(a: &Vec<TileType>, b: &Vec<TileType>) -> (r: bool)
    ensures
        r == (a@ == b@),
{
    if a.len() != b.len() {
        return false;
    }
    let mut i: usize = 0;
    while i < a.len()
        invariant
            a@.len() == b@.len(),
            i <= a@.len(),
            forall|j: int| 0 <= j < i ==> a@[j] == b@[j],
        decreases a@.len() - i,
    {
        if a[i] != b[i] {
            return false;
        }
        i = i + 1;
    }
    assert(a@ =~= b@);
    true
}

/// The 8 by 8 window of tiles of chunk (cx, cy), row by row; tiles off
/// the map read as wall.
pub open spec fn chunk_window(t: Seq<TileType>, w: int, h: int, cx: int, cy: int) -> Seq<TileType> {
    Seq::new(
        (CHUNK_SIZE * CHUNK_SIZE) as nat,
        |k: int|
            {
                let x = cx * CHUNK_SIZE as int + k % CHUNK_SIZE as int;
                let y = cy * CHUNK_SIZE as int + k / CHUNK_SIZE as int;
                if in_bounds(w, h, x, y) {
                    t[idx_of(w, x, y)]
                } else {
                    TileType::Wall
                }
            },
    )
}

/// The tiles of chunk (cx, cy), row by row; tiles off the map read as wall.
fn chunk_tiles(map: &GridMap, cx: usize, cy: usize) -> (r: Vec<TileType>)
    requires
        map.wf(),
        cx < 1024,
        cy < 1024,
    ensures
        r@ == chunk_window(map.tiles@, map.width as int, map.height as int, cx as int, cy as int),
{
    let mut r: Vec<TileType> = Vec::new();
    let ghost win = chunk_window(map.tiles@, map.width as int, map.height as int, cx as int, cy as int);
    let mut y: usize = 0;
    while y < CHUNK_SIZE
        invariant
            map.wf(),
            cx < 1024,
            cy < 1024,
            y <= CHUNK_SIZE,
            win == chunk_window(map.tiles@, map.width as int, map.height as int, cx as int, cy as int),
            r@.len() == y * CHUNK_SIZE,
            forall|k: int| 0 <= k < r@.len() ==> #[trigger] r@[k] == win[k],
        decreases CHUNK_SIZE - y,
    {
        let mut x: usize = 0;
        while x < CHUNK_SIZE
            invariant
                map.wf(),
                cx < 1024,
                cy < 1024,
                y < CHUNK_SIZE,
                x <= CHUNK_SIZE,
                win == chunk_window(map.tiles@, map.width as int, map.height as int, cx as int, cy as int),
                r@.len() == y * CHUNK_SIZE + x,
                forall|k: int| 0 <= k < r@.len() ==> #[trigger] r@[k] == win[k],
            decreases CHUNK_SIZE - x,
        {
            proof {
                crate::map::lemma_idx_in_range(CHUNK_SIZE as int, CHUNK_SIZE as int, x as int, y as int);
            }
            let tx = (cx * CHUNK_SIZE + x) as i32;
            let ty = (cy * CHUNK_SIZE + y) as i32;
            match map.xy_idx(tx, ty) {
                Some(i) => r.push(map.tiles[i]),
                None => r.push(TileType::Wall),
            }
            x = x + 1;
        }
        y = y + 1;
    }
    assert(r@ =~= win);
    r
}

/// Cuts `map` into `cw` by `ch` chunks of 8 by 8 tiles and collects the
/// distinct ones as patterns; pattern `b` may lie in direction `d` of
/// pattern `a` exactly when some chunk of pattern `b` lies in direction `d`
/// of a chunk of pattern `a`. Also returns the pattern of each chunk, which
/// the table therefore allows.
pub fn build_constraints(map: &GridMap, cw: usize, ch: usize) -> (r: (Constraints, Vec<usize>))
    requires
        map.wf(),
        1 <= cw <= 64,
        1 <= ch <= 64,
    ensures
        r.0.wf(),
        assignment_ok(&r.0, cw as int, ch as int, r.1@),
        table_from(&r.0, cw as int, ch as int, r.1@),
        r.1@.len() == cw * ch,
        forall|c: int|
            0 <= c < cw * ch ==> r.0.patterns@[#[trigger] r.1@[c] as int]@ == chunk_window(
                map.tiles@,
                map.width as int,
                map.height as int,
                c % cw as int,
                c / cw as int,
            ),
        forall|i: int, j: int|
            0 <= i < j < r.0.patterns@.len() ==> (#[trigger] r.0.patterns@[i])@ != (#[trigger] r.0.patterns@[j])@,
{
    proof {
        assert(1 <= cw * ch <= 4096) by (nonlinear_arith)
            requires
                1 <= cw <= 64,
                1 <= ch <= 64,
        ;
    }
    let g: usize = cw * ch;
    let mut patterns: Vec<Vec<TileType>> = Vec::new();
    let mut of_chunk: Vec<usize> = Vec::new();
    let mut c: usize = 0;
    while c < g
        invariant
            map.wf(),
            1 <= cw <= 64,
            1 <= ch <= 64,
            g == cw * ch,
            c <= g,
            of_chunk@.len() == c,
            patterns@.len() <= c,
            c > 0 ==> patterns@.len() >= 1,
            forall|j: int| 0 <= j < c ==> #[trigger] of_chunk@[j] < patterns@.len(),
            forall|i: int| 0 <= i < patterns@.len() ==> (#[trigger] patterns@[i])@.len() == CHUNK_SIZE * CHUNK_SIZE,
            forall|j: int|
                0 <= j < c ==> patterns@[#[trigger] of_chunk@[j] as int]@ == chunk_window(
                    map.tiles@,
                    map.width as int,
                    map.height as int,
                    j % cw as int,
                    j / cw as int,
                ),
            forall|i: int, j: int| 0 <= i < j < patterns@.len() ==> (#[trigger] patterns@[i])@ != (#[trigger] patterns@[j])@,
        decreases g - c,
    {
        proof {
            crate::map::lemma_idx_decompose(cw as int, ch as int, c as int);
        }
        let tiles = chunk_tiles(map, c % cw, c / cw);
        let mut found: usize = patterns.len();
        let mut p: usize = 0;
        while p < patterns.len()
            invariant
                p <= patterns@.len(),
                found == patterns@.len() || (found < p && patterns@[found as int]@ == tiles@),
                found == patterns@.len() ==> forall|q: int| 0 <= q < p ==> (#[trigger] patterns@[q])@ != tiles@,
            decreases patterns@.len() - p,
        {
            if found == patterns.len() && same_pattern(&patterns[p], &tiles) {
                found = p;
            }
            p = p + 1;
        }
        if found == patterns.len() {
            patterns.push(tiles);
        }
        of_chunk.push(found);
        c = c + 1;
    }
    let n = patterns.len();
    proof {
        lemma_allowed_index(n as int, 0, 0, 0);
    }
    let size = n * 4 * n;
    let mut allowed: Vec<bool> = Vec::new();
    let mut i: usize = 0;
    while i < size
        invariant
            i <= size,
            allowed@ == Seq::new(i as nat, |j: int| false),
        decreases size - i,
    {
        allowed.push(false);
        i = i + 1;
    }
    let mut k = Constraints { patterns, allowed };
    let ghost pats = k.patterns@;
    proof {
        assert forall|a: int, d: int, b: int| 0 <= a < n && 0 <= d < 4 && 0 <= b < n implies !#[trigger] k.allows(a, d, b) by {
            lemma_allowed_index(n as int, a, d, b);
        }
    }
    let mut c: usize = 0;
    while c < g
        invariant
            k.wf(),
            k.patterns@.len() == n,
            k.patterns@ == pats,
            forall|j: int|
                0 <= j < g ==> pats[#[trigger] of_chunk@[j] as int]@ == chunk_window(
                    map.tiles@,
                    map.width as int,
                    map.height as int,
                    j % cw as int,
                    j / cw as int,
                ),
            forall|i: int, j: int| 0 <= i < j < pats.len() ==> (#[trigger] pats[i])@ != (#[trigger] pats[j])@,

            1 <= cw <= 64,
            1 <= ch <= 64,
            g == cw * ch,
            g <= 4096,
            c <= g,
            of_chunk@.len() == g,
            forall|j: int| 0 <= j < g ==> #[trigger] of_chunk@[j] < n,
            forall|j: int, d: int|
                0 <= j < c && 0 <= d < 4 && (#[trigger] neighbor_of(cw as int, ch as int, j, d)) is Some
                    ==> k.allows(of_chunk@[j] as int, d, of_chunk@[neighbor_of(cw as int, ch as int, j, d)->0] as int),
            forall|a: int, d: int, b: int|
                0 <= a < n && 0 <= d < 4 && 0 <= b < n && #[trigger] k.allows(a, d, b) ==> exists|j: int|
                    0 <= j < g && of_chunk@[j] == a && neighbor_of(cw as int, ch as int, j, d) is Some
                        && of_chunk@[neighbor_of(cw as int, ch as int, j, d)->0] == b,
        decreases g - c,
    {
        let mut d: usize = 0;
        while d < 4
            invariant
                k.wf(),
                k.patterns@.len() == n,
                k.patterns@ == pats,
                forall|j: int|
                    0 <= j < g ==> pats[#[trigger] of_chunk@[j] as int]@ == chunk_window(
                        map.tiles@,
                        map.width as int,
                        map.height as int,
                        j % cw as int,
                        j / cw as int,
                    ),
                forall|i: int, j: int| 0 <= i < j < pats.len() ==> (#[trigger] pats[i])@ != (#[trigger] pats[j])@,

                1 <= cw <= 64,
                1 <= ch <= 64,
                g == cw * ch,
                g <= 4096,
                c < g,
                d <= 4,
                of_chunk@.len() == g,
                forall|j: int| 0 <= j < g ==> #[trigger] of_chunk@[j] < n,
                forall|j: int, e: int|
                    0 <= j < c && 0 <= e < 4 && (#[trigger] neighbor_of(cw as int, ch as int, j, e)) is Some
                        ==> k.allows(of_chunk@[j] as int, e, of_chunk@[neighbor_of(cw as int, ch as int, j, e)->0] as int),
                forall|e: int|
                    0 <= e < d && (#[trigger] neighbor_of(cw as int, ch as int, c as int, e)) is Some
                        ==> k.allows(of_chunk@[c as int] as int, e, of_chunk@[neighbor_of(cw as int, ch as int, c as int, e)->0] as int),
                forall|a: int, e: int, b: int|
                    0 <= a < n && 0 <= e < 4 && 0 <= b < n && #[trigger] k.allows(a, e, b) ==> exists|j: int|
                        0 <= j < g && of_chunk@[j] == a && neighbor_of(cw as int, ch as int, j, e) is Some
                            && of_chunk@[neighbor_of(cw as int, ch as int, j, e)->0] == b,
            decreases 4 - d,
        {
            if let Some(v) = neighbor(cw, ch, c, d) {
                let a = of_chunk[c];
                let b = of_chunk[v];
                proof {
                    lemma_allowed_index(n as int, a as int, d as int, b as int);
                }
                let slot = (a * 4 + d) * n + b;
                let ghost k0 = k.allowed@;
                let ghost kb = k;
                k.allowed.set(slot, true);
                proof {
                    assert forall|a2: int, e: int, b2: int|
                        0 <= a2 < n && 0 <= e < 4 && 0 <= b2 < n && #[trigger] k.allows(a2, e, b2) implies exists|j: int|
                            0 <= j < g && of_chunk@[j] == a2 && neighbor_of(cw as int, ch as int, j, e) is Some
                                && of_chunk@[neighbor_of(cw as int, ch as int, j, e)->0] == b2 by {
                        lemma_allowed_index(n as int, a2, e, b2);
                        if (a2 * 4 + e) * n + b2 == slot {
                            assert(a2 == a && e == d && b2 == b) by (nonlinear_arith)
                                requires
                                    (a2 * 4 + e) * n + b2 == (a * 4 + d) * n + b,
                                    0 <= a2 < n,
                                    0 <= a < n,
                                    0 <= e < 4,
                                    0 <= d < 4,
                                    0 <= b2 < n,
                                    0 <= b < n,
                            ;
                            assert(neighbor_of(cw as int, ch as int, c as int, d as int) is Some);
                            assert(0 <= c < g && of_chunk@[c as int] == a2 && neighbor_of(cw as int, ch as int, c as int, e) is Some
                                && of_chunk@[neighbor_of(cw as int, ch as int, c as int, e)->0] == b2);
                        } else {
                            assert(kb.allows(a2, e, b2));
                        }
                    }
                    assert forall|j: int, e: int|
                        0 <= j < c && 0 <= e < 4 && (#[trigger] neighbor_of(cw as int, ch as int, j, e)) is Some
                            implies k.allows(of_chunk@[j] as int, e, of_chunk@[neighbor_of(cw as int, ch as int, j, e)->0] as int) by {
                        let nb = neighbor_of(cw as int, ch as int, j, e)->0;
                        lemma_neighbor_range(cw as int, ch as int, j, e);
                        lemma_allowed_index(n as int, of_chunk@[j] as int, e, of_chunk@[nb] as int);
                    }
                    assert forall|e: int|
                        0 <= e < d + 1 && (#[trigger] neighbor_of(cw as int, ch as int, c as int, e)) is Some
                            implies k.allows(of_chunk@[c as int] as int, e, of_chunk@[neighbor_of(cw as int, ch as int, c as int, e)->0] as int) by {
                        let nb = neighbor_of(cw as int, ch as int, c as int, e)->0;
                        lemma_neighbor_range(cw as int, ch as int, c as int, e);
                        lemma_allowed_index(n as int, of_chunk@[c as int] as int, e, of_chunk@[nb] as int);
                    }
                }
            }
            d = d + 1;
        }
        c = c + 1;
    }
    proof {
        reveal(table_from);
    }
    (k, of_chunk)
}

/// Candidates of row `row` among its first `q` patterns.
pub open spec fn count_options(row: Seq<bool>, q: int) -> int
    decreases q,
{
    if q <= 0 {
        0
    } else {
        count_options(row, q - 1) + if row[q - 1] { 1int } else { 0int }
    }
}

/// Among the first `c` chunks, the first open one (its pattern not yet
/// chosen, `chosen[c] == n`) with the fewest candidates; -1 when none is open.
pub open spec fn fewest_open(rows: Seq<Seq<bool>>, chosen: Seq<usize>, n: int, c: int) -> int
    decreases c,
{
    if c <= 0 {
        -1
    } else {
        let b = fewest_open(rows, chosen, n, c - 1);
        if chosen[c - 1] == n && (b == -1 || count_options(rows[c - 1], n) < count_options(rows[b], n)) {
            c - 1
        } else {
            b
        }
    }
}

/// The candidate a roll of `roll` picks in `row`: the `roll`-th candidate
/// among the first `q` patterns, or `n` when there are fewer.
pub open spec fn picked(row: Seq<bool>, roll: int, n: int, q: int) -> int
    decreases q,
{
    if q <= 0 {
        n
    } else {
        let p = picked(row, roll, n, q - 1);
        if p == n && row[q - 1] && count_options(row, q) == roll {
            q - 1
        } else {
            p
        }
    }
}

/// The direction in which chunk `v` neighbours chunk `c`; 4 when it does not.
pub open spec fn dir_of(cw: int, ch: int, c: int, v: int) -> int {
    if neighbor_of(cw, ch, c, 0) == Some(v) {
        0
    } else if neighbor_of(cw, ch, c, 1) == Some(v) {
        1
    } else if neighbor_of(cw, ch, c, 2) == Some(v) {
        2
    } else if neighbor_of(cw, ch, c, 3) == Some(v) {
        3
    } else {
        4
    }
}

/// Candidates after settling chunk `best` on pattern `pick`: `best` keeps
/// `pick` alone, each open neighbour keeps the candidates `pick` allows in
/// its direction, every other chunk keeps its own.
pub open spec fn settled(k: &Constraints, cw: int, ch: int, rows: Seq<Seq<bool>>, chosen: Seq<usize>, best: int, pick: int) -> Seq<Seq<bool>> {
    let n = k.patterns@.len() as int;
    Seq::new(
        rows.len(),
        |v: int|
            if v == best {
                Seq::new(n as nat, |q: int| q == pick)
            } else if chosen[v] == n && dir_of(cw, ch, best, v) < 4 {
                Seq::new(n as nat, |q: int| rows[v][q] && k.allows(pick, dir_of(cw, ch, best, v), q))
            } else {
                rows[v]
            },
    )
}

/// A collapse under way: the candidate patterns of each chunk, and the
/// pattern chosen for it (the number of patterns while it is open).
pub struct Collapse {
    pub candidates: Vec<Vec<bool>>,
    pub chosen: Vec<usize>,
}

impl Collapse {
    pub open spec fn rows(&self) -> Seq<Seq<bool>> {
        self.candidates@.map_values(|r: Vec<bool>| r@)
    }

    pub open spec fn wf(&self, g: int, n: int) -> bool {
        &&& self.candidates@.len() == g
        &&& self.chosen@.len() == g
        &&& forall|c: int| 0 <= c < g ==> (#[trigger] self.candidates@[c])@.len() == n
        &&& forall|c: int| 0 <= c < g ==> #[trigger] self.chosen@[c] <= n
    }

    /// Every chunk open, every pattern a candidate.
    pub fn start(g: usize, n: usize) -> (r: Collapse)
        ensures
            r.wf(g as int, n as int),
            forall|c: int| 0 <= c < g ==> #[trigger] r.chosen@[c] == n,
            forall|c: int, q: int| 0 <= c < g && 0 <= q < n ==> #[trigger] r.candidates@[c]@[q],
    {
        let mut candidates: Vec<Vec<bool>> = Vec::new();
        let mut chosen: Vec<usize> = Vec::new();
        let mut c: usize = 0;
        while c < g
            invariant
                c <= g,
                candidates@.len() == c,
                chosen@.len() == c,
                forall|j: int| 0 <= j < c ==> (#[trigger] candidates@[j])@ == Seq::new(n as nat, |q: int| true),
                forall|j: int| 0 <= j < c ==> #[trigger] chosen@[j] == n,
            decreases g - c,
        {
            let mut row: Vec<bool> = Vec::new();
            let mut q: usize = 0;
            while q < n
                invariant
                    q <= n,
                    row@ == Seq::new(q as nat, |i: int| true),
                decreases n - q,
            {
                row.push(true);
                q = q + 1;
            }
            candidates.push(row);
            chosen.push(n);
            c = c + 1;
        }
        Collapse { candidates, chosen }
    }

    /// How many candidates chunk `c` has.
    pub fn options(&self, c: usize, n: usize) -> (r: usize)
        requires
            c < self.candidates@.len(),
            self.candidates@[c as int]@.len() == n,
        ensures
            r == count_options(self.rows()[c as int], n as int),
            r <= n,
    {
        let row = &self.candidates[c];
        let mut count: usize = 0;
        let mut q: usize = 0;
        while q < n
            invariant
                row@ == self.rows()[c as int],
                row@.len() == n,
                q <= n,
                count == count_options(row@, q as int),
                count <= q,
            decreases n - q,
        {
            if row[q] {
                count = count + 1;
            }
            q = q + 1;
        }
        count
    }

    /// The open chunk with the fewest candidates (the first of equals), and
    /// how many it has; `None` when every chunk has its pattern.
    pub fn fewest_options(&self, g: usize, n: usize) -> (r: Option<(usize, usize)>)
        requires
            self.wf(g as int, n as int),
        ensures
            match r {
                Some((b, cnt)) => b as int == fewest_open(self.rows(), self.chosen@, n as int, g as int) && cnt
                    == count_options(self.rows()[b as int], n as int) && b < g && cnt <= n,
                None => fewest_open(self.rows(), self.chosen@, n as int, g as int) == -1,
            },
    {
        let mut best: usize = g;
        let mut best_count: usize = 0;
        let mut c: usize = 0;
        while c < g
            invariant
                self.wf(g as int, n as int),
                c <= g,
                best == g ==> fewest_open(self.rows(), self.chosen@, n as int, c as int) == -1,
                best < g ==> best as int == fewest_open(self.rows(), self.chosen@, n as int, c as int)
                    && best_count == count_options(self.rows()[best as int], n as int) && best_count <= n,
                best == g || best < c,
            decreases g - c,
        {
            if self.chosen[c] == n {
                let cnt = self.options(c, n);
                if best == g || cnt < best_count {
                    best = c;
                    best_count = cnt;
                }
            }
            c = c + 1;
        }
        if best == g {
            None
        } else {
            Some((best, best_count))
        }
    }

    /// Settles chunk `best` on the `roll`-th of its candidates and strikes
    /// from its open neighbours what that pattern does not allow; `false`,
    /// with nothing changed, when it has fewer than `roll` candidates.
    pub fn settle(&mut self, k: &Constraints, cw: usize, ch: usize, best: usize, roll: usize) -> (r: bool)
        requires
            k.wf(),
            1 <= cw <= 64,
            1 <= ch <= 64,
            old(self).wf(cw * ch, k.patterns@.len() as int),
            best < cw * ch,
        ensures
            final(self).wf(cw * ch, k.patterns@.len() as int),
            ({
                let n = k.patterns@.len() as int;
                let p = picked(old(self).rows()[best as int], roll as int, n, n);
                &&& r == (p != n)
                &&& !r ==> final(self).rows() == old(self).rows() && final(self).chosen@ == old(self).chosen@
                &&& r ==> final(self).chosen@ == old(self).chosen@.update(best as int, p as usize)
                    && final(self).rows() == settled(k, cw as int, ch as int, old(self).rows(), old(self).chosen@, best as int, p)
            }),
    {
        let n = k.patterns.len();
        let ghost g = (cw * ch) as int;
        let ghost rows0 = self.rows();
        let ghost chosen0 = self.chosen@;
        let mut pick: usize = n;
        let mut seen: usize = 0;
        let mut q: usize = 0;
        while q < n
            invariant
                self.wf(g, n as int),
                self.rows() == rows0,
                best < g,
                n == k.patterns@.len(),
                q <= n,
                seen == count_options(rows0[best as int], q as int),
                seen <= q,
                pick as int == picked(rows0[best as int], roll as int, n as int, q as int),
                pick == n || pick < q,
            decreases n - q,
        {
            if self.candidates[best][q] {
                seen = seen + 1;
                if seen == roll && pick == n {
                    pick = q;
                }
            }
            q = q + 1;
        }
        if pick == n {
            return false;
        }
        let mut single: Vec<bool> = Vec::new();
        let mut q: usize = 0;
        while q < n
            invariant
                q <= n,
                single@ == Seq::new(q as nat, |i: int| i == pick),
            decreases n - q,
        {
            single.push(q == pick);
            q = q + 1;
        }
        self.candidates.set(best, single);
        self.chosen.set(best, pick);
        proof {
            assert(self.rows() =~= Seq::new(
                g as nat,
                |v: int|
                    if v == best {
                        Seq::new(n as nat, |i: int| i == pick)
                    } else if chosen0[v] == n && dir_of(cw as int, ch as int, best as int, v) < 0 {
                        Seq::new(n as nat, |i: int| rows0[v][i] && k.allows(pick as int, dir_of(cw as int, ch as int, best as int, v), i))
                    } else {
                        rows0[v]
                    },
            ));
        }
        let mut d: usize = 0;
        while d < 4
            invariant
                k.wf(),
                n == k.patterns@.len(),
                1 <= cw <= 64,
                1 <= ch <= 64,
                g == cw * ch,
                best < g,
                pick < n,
                d <= 4,
                self.wf(g, n as int),
                self.chosen@ == chosen0.update(best as int, pick),
                chosen0.len() == g,
                rows0.len() == g,
                forall|c: int| 0 <= c < g ==> (#[trigger] rows0[c]).len() == n,
                self.rows() == Seq::new(
                    g as nat,
                    |v: int|
                        if v == best {
                            Seq::new(n as nat, |i: int| i == pick)
                        } else if chosen0[v] == n && dir_of(cw as int, ch as int, best as int, v) < d {
                            Seq::new(n as nat, |i: int| rows0[v][i] && k.allows(pick as int, dir_of(cw as int, ch as int, best as int, v), i))
                        } else {
                            rows0[v]
                        },
                ),
            decreases 4 - d,
        {
            let ghost before = self.rows();
            let nb = neighbor(cw, ch, best, d);
            proof {
                lemma_dirs(cw as int, ch as int, best as int);
            }
            if let Some(v) = nb {
                if self.chosen[v] == n {
                    let mut nr: Vec<bool> = Vec::new();
                    let mut q: usize = 0;
                    while q < n
                        invariant
                            k.wf(),
                            n == k.patterns@.len(),
                            q <= n,
                            v < g,
                            d < 4,
                            pick < n,
                            self.wf(g, n as int),
                            nr@ == Seq::new(q as nat, |i: int| self.rows()[v as int][i] && k.allows(pick as int, d as int, i)),
                        decreases n - q,
                    {
                        let keep = self.candidates[v][q] && allowed_at(k, pick, d, q);
                        nr.push(keep);
                        q = q + 1;
                    }
                    self.candidates.set(v, nr);
                }
            }
            proof {
                let target = Seq::new(
                    g as nat,
                    |v: int|
                        if v == best {
                            Seq::new(n as nat, |i: int| i == pick)
                        } else if chosen0[v] == n && dir_of(cw as int, ch as int, best as int, v) < d + 1 {
                            Seq::new(n as nat, |i: int| rows0[v][i] && k.allows(pick as int, dir_of(cw as int, ch as int, best as int, v), i))
                        } else {
                            rows0[v]
                        },
                );
                assert forall|v: int| 0 <= v < g implies #[trigger] self.rows()[v] == target[v] by {
                    if nb is Some && v == nb->0 {
                        assert(dir_of(cw as int, ch as int, best as int, v) == d);
                        if chosen0[v] == n {
                            assert(self.rows()[v] =~= target[v]);
                        }
                    } else {
                        if dir_of(cw as int, ch as int, best as int, v) == d {
                            assert(neighbor_of(cw as int, ch as int, best as int, d as int) == Some(v));
                        }
                        assert(self.rows()[v] == before[v]);
                    }
                }
                assert(self.rows() =~= Seq::new(
                    g as nat,
                    |v: int|
                        if v == best {
                            Seq::new(n as nat, |i: int| i == pick)
                        } else if chosen0[v] == n && dir_of(cw as int, ch as int, best as int, v) < d + 1 {
                            Seq::new(n as nat, |i: int| rows0[v][i] && k.allows(pick as int, dir_of(cw as int, ch as int, best as int, v), i))
                        } else {
                            rows0[v]
                        },
                ));
            }
            d = d + 1;
        }
        proof {
            assert(self.rows() =~~= settled(k, cw as int, ch as int, rows0, chosen0, best as int, pick as int));
        }
        true
    }
}

/// The four neighbours of a chunk are distinct from it and from one
/// another, so each has one direction.
proof fn lemma_dirs(cw: int, ch: int, c: int)
    requires
        1 <= cw,
        1 <= ch,
        0 <= c < cw * ch,
    ensures
        forall|d: int|
            0 <= d < 4 && (#[trigger] neighbor_of(cw, ch, c, d)) is Some ==> neighbor_of(cw, ch, c, d)->0 != c
                && dir_of(cw, ch, c, neighbor_of(cw, ch, c, d)->0) == d && 0 <= neighbor_of(cw, ch, c, d)->0 < cw * ch,
{
    vstd::arithmetic::div_mod::lemma_mod_bound(c, cw);
    lemma_neighbor_range(cw, ch, c, 0);
    lemma_neighbor_range(cw, ch, c, 1);
    lemma_neighbor_range(cw, ch, c, 2);
    lemma_neighbor_range(cw, ch, c, 3);
}

/// One collapse from scratch: settles chunk after chunk, the open one with
/// the fewest candidates first, on one of its candidates drawn at random.
/// `None` when some chunk runs out of candidates.
fn collapse_once(k: &Constraints, cw: usize, ch: usize, rng: &mut RandomNumberGenerator) -> (r: Option<Vec<usize>>)
    requires
        k.wf(),
        1 <= cw <= 64,
        1 <= ch <= 64,
{
    let n = k.patterns.len();
    proof {
        assert(1 <= cw * ch <= 4096) by (nonlinear_arith)
            requires
                1 <= cw <= 64,
                1 <= ch <= 64,
        ;
    }
    let g = cw * ch;
    let mut st = Collapse::start(g, n);
    let mut step: usize = 0;
    while step < g
        invariant
            k.wf(),
            n == k.patterns@.len(),
            1 <= cw <= 64,
            1 <= ch <= 64,
            g == cw * ch,
            st.wf(g as int, n as int),
        decreases g - step,
    {
        match st.fewest_options(g, n) {
            None => {
                return Some(st.chosen);
            },
            Some((best, cnt)) => {
                if cnt == 0 {
                    return None;
                }
                let roll = roll_die(rng, cnt as i32) as usize;
                if !st.settle(k, cw, ch, best, roll) {
                    return None;
                }
            },
        }
        step = step + 1;
    }
    Some(st.chosen)
}

/// Collapses until an attempt gives a layout every adjacency of which the
/// table allows, starting over after each failed attempt; `None` after
/// 500 failures.
pub fn solve(k: &Constraints, cw: usize, ch: usize, rng: &mut RandomNumberGenerator) -> (r: Option<Vec<usize>>)
    requires
        k.wf(),
        1 <= cw <= 64,
        1 <= ch <= 64,
    ensures
        r is Some ==> assignment_ok(k, cw as int, ch as int, r->0@),
{
    let mut attempt: usize = 0;
    while attempt < MAX_ATTEMPTS
        invariant
            k.wf(),
            1 <= cw <= 64,
            1 <= ch <= 64,
        decreases MAX_ATTEMPTS - attempt,
    {
        if let Some(a) = collapse_once(k, cw, ch, rng) {
            if check_assignment(k, cw, ch, &a) {
                return Some(a);
            }
        }
        attempt = attempt + 1;
    }
    None
}

/// Tiles of a layout of patterns laid out over the map from its top-left
/// corner; tiles beyond the last whole chunk keep their value.
pub open spec fn layout_tiles(k: &Constraints, cw: int, ch: int, a: Seq<usize>, w: int, old: Seq<TileType>) -> Seq<TileType> {
    Seq::new(
        old.len(),
        |i: int|
            {
                let x = crate::map::col_of(w, i);
                let y = crate::map::row_of(w, i);
                let cx = x / CHUNK_SIZE as int;
                let cy = y / CHUNK_SIZE as int;
                if cx < cw && cy < ch {
                    k.patterns@[a[cy * cw + cx] as int]@[(y % CHUNK_SIZE as int) * CHUNK_SIZE as int + x % CHUNK_SIZE as int]
                } else {
                    old[i]
                }
            },
    )
}

/// Lays the patterns of a layout onto the map.
pub fn render_layout(map: &mut GridMap, k: &Constraints, cw: usize, ch: usize, a: &Vec<usize>)
    requires
        old(map).wf(),
        k.wf(),
        1 <= cw <= 64,
        1 <= ch <= 64,
        assignment_ok(k, cw as int, ch as int, a@),
    ensures
        final(map).wf(),
        final(map).same_shape(old(map)),
        final(map).tiles@ == layout_tiles(k, cw as int, ch as int, a@, old(map).width as int, old(map).tiles@),
{
    let ghost o = map.tiles@;
    let ghost w = map.width as int;
    let ghost h = map.height as int;
    let n = map.tiles.len();
    let wu = map.width as usize;
    let mut i: usize = 0;
    while i < n
        invariant
            map.wf(),
            map.same_shape(old(map)),
            o == old(map).tiles@,
            k.wf(),
            1 <= cw <= 64,
            1 <= ch <= 64,
            assignment_ok(k, cw as int, ch as int, a@),
            n == o.len(),
            w == wu,
            h == map.height,
            w == map.width,
            i <= n,
            forall|j: int|
                0 <= j < n ==> #[trigger] map.tiles@[j] == if j < i {
                    layout_tiles(k, cw as int, ch as int, a@, w, o)[j]
                } else {
                    o[j]
                },
        decreases n - i,
    {
        let x = i % wu;
        let y = i / wu;
        let cx = x / CHUNK_SIZE;
        let cy = y / CHUNK_SIZE;
        if cx < cw && cy < ch {
            proof {
                assert(cy * cw + cx < cw * ch) by (nonlinear_arith)
                    requires
                        cx < cw,
                        cy < ch,
                ;
                assert(cw * ch <= 4096) by (nonlinear_arith)
                    requires
                        cw <= 64,
                        ch <= 64,
                ;
            }
            let p = a[cy * cw + cx];
            let t = k.patterns[p][(y % CHUNK_SIZE) * CHUNK_SIZE + x % CHUNK_SIZE];
            map.tiles.set(i, t);
        }
        i = i + 1;
    }
    assert(map.tiles@ =~= layout_tiles(k, cw as int, ch as int, a@, w, o));
}

/// Turns every down-stairs tile into floor.
pub fn clear_stairs(map: &mut GridMap)
    requires
        old(map).wf(),
    ensures
        final(map).wf(),
        final(map).same_shape(old(map)),
        no_stairs(final(map).tiles@),
        final(map).tiles@ == old(map).tiles@.map_values(
            |t: TileType| if t == TileType::DownStairs { TileType::Floor } else { t },
        ),
{
    let ghost o = map.tiles@;
    let n = map.tiles.len();
    let mut i: usize = 0;
    while i < n
        invariant
            map.wf(),
            map.same_shape(old(map)),
            o == old(map).tiles@,
            n == o.len(),
            i <= n,
            forall|j: int|
                0 <= j < n ==> #[trigger] map.tiles@[j] == if j < i && o[j] == TileType::DownStairs {
                    TileType::Floor
                } else {
                    o[j]
                },
        decreases n - i,
    {
        if map.tiles[i] == TileType::DownStairs {
            map.tiles.set(i, TileType::Floor);
        }
        i = i + 1;
    }
    assert(map.tiles@ =~= o.map_values(|t: TileType| if t == TileType::DownStairs { TileType::Floor } else { t }));
}

/// Why a wave-collapse build failed.
#[derive(Clone, Copy, PartialEq, Eq, Structural, Debug)]
pub enum WfcError {
    /// No builder was given to make the donor level.
    NoDonor,
    /// Every one of the collapses tried ran into a chunk with no candidate.
    Exhausted,
}

/// Levels made of 8 by 8 patterns cut from a level another builder made,
/// recombined so that neighbouring patterns only meet as they did there.
pub struct WaveformCollapseBuilder {
    pub map: GridMap,
    pub starting_position: Position,
    pub depth: i32,
    pub history: Vec<GridMap>,
    /// Whether each step's map is recorded in `history`, for playback.
    pub visualize: bool,
    pub noise_areas: Vec<Vec<usize>>,
    pub derive_from: Option<Box<BaseBuilder>>,
    /// Patterns and adjacency table of the last build.
    pub constraints: Constraints,
    /// Pattern of each chunk of the level built.
    pub chunks: Vec<usize>,
    /// Pattern of each chunk of the donor level.
    pub donor_chunks: Vec<usize>,
    /// The tiles laid out from `chunks`, before the start was chosen and
    /// the unreachable tiles removed.
    pub synthesized: Vec<TileType>,
    /// Whether the middle row held no floor at or left of the centre, so
    /// the centre was floored to start on.
    pub centre_carved: bool,
    /// Why the last `build_map` failed, if it did.
    pub error: Option<WfcError>,
    /// Index of the down stairs.
    pub exit: usize,
    /// The flood that placed the stairs.
    pub flood: FloodMap,
}

impl WaveformCollapseBuilder {
    pub fn new(new_depth: i32, derive_from: Option<Box<BaseBuilder>>) -> (r: Self)
        ensures
            r.depth == new_depth,
            r.map.fresh(new_depth),
            r.derive_from == derive_from,
    {
        WaveformCollapseBuilder {
            map: GridMap::new(new_depth),
            starting_position: Position { x: 0, y: 0 },
            depth: new_depth,
            history: Vec::new(),
            visualize: false,
            noise_areas: Vec::new(),
            derive_from,
            constraints: Constraints { patterns: Vec::new(), allowed: Vec::new() },
            chunks: Vec::new(),
            donor_chunks: Vec::new(),
            synthesized: Vec::new(),
            centre_carved: false,
            error: None,
            exit: 0,
            flood: FloodMap { reached: Vec::new(), dist: Vec::new() },
        }
    }

    pub fn derived_map(new_depth: i32, builder: Box<BaseBuilder>) -> (r: Self)
        ensures
            r.depth == new_depth,
            r.map.fresh(new_depth),
            r.derive_from == Some(builder),
    {
        WaveformCollapseBuilder::new(new_depth, Some(builder))
    }

    pub open spec fn chunks_x(&self) -> int {
        MAPWIDTH as int / CHUNK_SIZE as int
    }

    pub open spec fn chunks_y(&self) -> int {
        MAPHEIGHT as int / CHUNK_SIZE as int
    }

    /// The donor's patterns and table: built from the donor's chunks, which
    /// the table allows, and every allowed pair met in the donor.
    pub open spec fn learned(&self) -> bool {
        &&& self.constraints.wf()
        &&& table_from(&self.constraints, self.chunks_x(), self.chunks_y(), self.donor_chunks@)
    }

    /// The level is finished from a layout of the donor's patterns that the
    /// table allows throughout: the laid-out tiles (stairs as floor) are what
    /// the flood then pruned.
    pub open spec fn built(&self) -> bool {
        &&& level_ok(self.map, self.starting_position, self.exit as int)
        &&& stairs_farthest(self.map, self.starting_position, self.exit as int, self.flood)
        &&& regions_ok(self.map, self.noise_areas@)
        &&& self.learned()
        &&& assignment_ok(&self.constraints, self.chunks_x(), self.chunks_y(), self.chunks@)
        &&& self.synthesized@ == layout_tiles(
            &self.constraints,
            self.chunks_x(),
            self.chunks_y(),
            self.chunks@,
            MAPWIDTH as int,
            Seq::new(MAPCOUNT as nat, |i: int| TileType::Wall),
        ).map_values(|t: TileType| if t == TileType::DownStairs { TileType::Floor } else { t })
        &&& self.map.width == MAPWIDTH && self.map.height == MAPHEIGHT
        &&& self.map.tiles@ == crate::flood::pruned(
            if self.centre_carved {
                self.synthesized@.update(idx_of(MAPWIDTH as int, MAPWIDTH as int / 2, MAPHEIGHT as int / 2), TileType::Floor)
            } else {
                self.synthesized@
            },
            self.flood.reached@,
        ).update(self.exit as int, TileType::DownStairs)
    }

    /// Builds the donor level, learns its patterns, collapses a new layout of
    /// them, starts the player on the first floor tile at or left of the
    /// centre (the centre made floor when there is none), removes what cannot
    /// be reached and puts the stairs on the farthest tile. Fails when there
    /// is no donor, or when every collapse ran into a chunk with no candidate.
    #[verifier::rlimit(100)]
    pub fn build(&mut self, rng: &mut RandomNumberGenerator) -> (r: Result<(), WfcError>)
        ensures
            r == Err::<(), WfcError>(WfcError::NoDonor) <==> old(self).derive_from is None,
            r is Ok ==> final(self).built(),
            final(self).derive_from is None,
    {
        let mut donor = match self.derive_from.take() {
            Some(prev) => (*prev).build_level(rng).0,
            None => {
                return Err(WfcError::NoDonor);
            },
        };
        clear_stairs(&mut donor);
        record_snapshot(&donor, &mut self.history, self.visualize);
        self.map = GridMap::new(self.depth);
        let cw = MAPWIDTH / CHUNK_SIZE;
        let ch = MAPHEIGHT / CHUNK_SIZE;
        let (k, donor_chunks) = build_constraints(&donor, cw, ch);
        let a = match solve(&k, cw, ch, rng) {
            Some(a) => a,
            None => {
                return Err(WfcError::Exhausted);
            },
        };
        render_layout(&mut self.map, &k, cw, ch, &a);
        self.chunks = a;
        self.constraints = k;
        self.donor_chunks = donor_chunks;
        clear_stairs(&mut self.map);
        self.synthesized = crate::builder::revealed_copy(&self.map).tiles;
        record_snapshot(&self.map, &mut self.history, self.visualize);
        let cy = self.map.height / 2;
        let (sx, carved) = start_left_of_centre(&mut self.map);
        self.centre_carved = carved;
        self.starting_position = Position { x: sx, y: cy };
        let start_idx = self.map.xy_idx(sx, cy).unwrap();
        let (exit, flood) = finish_with_stairs(&mut self.map, start_idx);
        self.exit = exit;
        self.flood = flood;
        record_snapshot(&self.map, &mut self.history, self.visualize);
        self.noise_areas = generate_voronoi_spawn_regions(&self.map, rng);
        Ok(())
    }
}

impl MapBuilder for WaveformCollapseBuilder {
    open spec fn finished(&self) -> bool {
        self.error is None ==> self.built()
    }

    open spec fn current_map(&self) -> GridMap {
        self.map
    }

    open spec fn snapshots(&self) -> Seq<GridMap> {
        self.history@
    }

    open spec fn visualizing(&self) -> bool {
        self.visualize
    }

    /// A failure is recorded in `error`; the level then stays unfinished.
    fn build_map(&mut self, rng: &mut RandomNumberGenerator) {
        let r = self.build(rng);
        self.error = match r {
            Ok(()) => None,
            Err(e) => Some(e),
        };
    }

    fn get_map(&self) -> GridMap {
        self.map.clone()
    }

    fn get_starting_position(&self) -> Position {
        self.starting_position
    }

    fn get_snapshot_history(&self) -> Vec<GridMap> {
        self.history.clone()
    }

    fn get_spawn_list(&self) -> Vec<(usize, String)> {
        Vec::new()
    }

    fn take_snapshot(&mut self) {
        if self.map.is_well_formed() {
            record_snapshot(&self.map, &mut self.history, self.visualize);
        }
    }
}

} // verus!
