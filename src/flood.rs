use vstd::prelude::*;
use vstd::set_lib::{lemma_int_range, lemma_len_subset, set_int_range};
use crate::map::{GridMap, TileType, walkable, col_of, row_of, idx_of, in_bounds, lemma_idx_in_range, lemma_idx_decompose};

verus! {

/// Cost of a step along a row or a column.
pub const CARDINAL_COST: u64 = 100;

/// Cost of a diagonal step.
pub const DIAGONAL_COST: u64 = 145;

/// Tiles `i` and `j` differ and touch by an edge or a corner.
pub open spec fn adjacent(w: int, h: int, i: int, j: int) -> bool {
    &&& 0 <= i < w * h
    &&& 0 <= j < w * h
    &&& i != j
    &&& -1 <= col_of(w, j) - col_of(w, i) <= 1
    &&& -1 <= row_of(w, j) - row_of(w, i) <= 1
}

pub open spec fn step_cost(w: int, i: int, j: int) -> int {
    if col_of(w, i) == col_of(w, j) || row_of(w, i) == row_of(w, j) {
        CARDINAL_COST as int
    } else {
        DIAGONAL_COST as int
    }
}

/// `p` walks from `s` to `e` over walkable tiles of `t`, one 8-way step at a time.
pub open spec fn is_path(t: Seq<TileType>, w: int, h: int, p: Seq<int>, s: int, e: int) -> bool {
    &&& p.len() >= 1
    &&& p[0] == s
    &&& p.last() == e
    &&& forall|k: int| 0 <= k < p.len() ==> 0 <= #[trigger] p[k] < t.len() && walkable(t[p[k]])
    &&& forall|k: int| 0 <= k < p.len() - 1 ==> adjacent(w, h, #[trigger] p[k], p[k + 1])
}

/// Tile `e` can be walked to from tile `s`.
pub open spec fn connected(t: Seq<TileType>, w: int, h: int, s: int, e: int) -> bool {
    exists|p: Seq<int>| is_path(t, w, h, p, s, e)
}

/// Every walkable tile of `t` can be walked to from `s`.
pub open spec fn all_walkable_connected(t: Seq<TileType>, w: int, h: int, s: int) -> bool {
    forall|i: int| 0 <= i < t.len() && walkable(#[trigger] t[i]) ==> connected(t, w, h, s, i)
}

/// What a finished flood from `s` over the tiles `t` guarantees: the tiles
/// it reached are walkable and walkable to from `s`; every walkable neighbour
/// of a reached tile is reached; and the distances meet the shortest-path
/// equations (zero at `s`, no step shortens them, each is one step more
/// than a reached neighbour's).
#[verifier::opaque]
pub open spec fn flood_ok(
    t: Seq<TileType>,
    w: int,
    h: int,
    s: int,
    reached: Seq<bool>,
    dist: Seq<u64>,
) -> bool {
    &&& reached.len() == t.len()
    &&& dist.len() == t.len()
    &&& 0 <= s < t.len()
    &&& reached[s]
    &&& dist[s] == 0
    &&& forall|i: int| 0 <= i < t.len() && #[trigger] reached[i] ==> walkable(t[i])
    &&& forall|i: int|
        0 <= i < t.len() && #[trigger] reached[i] ==> exists|p: Seq<int>|
            is_path(t, w, h, p, s, i) && forall|k: int|
                0 <= k < p.len() ==> #[trigger] reached[p[k]]
    &&& forall|i: int, j: int|
        #[trigger] reached[i] && adjacent(w, h, i, j) && walkable(#[trigger] t[j]) ==> reached[j]
            && dist[j] <= dist[i] + step_cost(w, i, j)
    &&& forall|i: int|
        0 <= i < t.len() && #[trigger] reached[i] && i != s ==> exists|j: int|
            adjacent(w, h, j, i) && #[trigger] reached[j] && dist[i] == dist[j] + step_cost(w, j, i)
}

/// Reached tiles and their distances from a flood.
pub struct FloodMap {
    pub reached: Vec<bool>,
    pub dist: Vec<u64>,
}

proof fn lemma_neighbor_coords(w: int, h: int, u: int, x: int, y: int, j: int)
    requires
        0 < w,
        0 < h,
        in_bounds(w, h, x, y),
        u == idx_of(w, x, y),
        0 <= j < w * h,
    ensures
        col_of(w, j) - col_of(w, u) == col_of(w, j) - x,
        row_of(w, j) - row_of(w, u) == row_of(w, j) - y,
        in_bounds(w, h, col_of(w, j), row_of(w, j)),
        j == idx_of(w, col_of(w, j), row_of(w, j)),
{
    lemma_idx_in_range(w, h, x, y);
    lemma_idx_decompose(w, h, j);
}

/// A flood under way: the tiles reached and settled so far, with the
/// predecessor and the path behind each reached tile.
struct Frontier {
    reached: Vec<bool>,
    visited: Vec<bool>,
    dist: Vec<u64>,
    pred: Ghost<Seq<int>>,
    paths: Ghost<Seq<Seq<int>>>,
}

impl Frontier {
    /// What holds of a flood from `s` over `t` after `nvis` tiles were settled.
    spec fn inv(&self, t: Seq<TileType>, w: int, h: int, s: int, nvis: int) -> bool {
        let n = t.len();
        let r = self.reached@;
        let v = self.visited@;
        let d = self.dist@;
        let pred = self.pred@;
        let paths = self.paths@;
        &&& 0 < w
        &&& 0 < h
        &&& n == w * h
        &&& 0 <= s < n
        &&& r.len() == n
        &&& v.len() == n
        &&& d.len() == n
        &&& pred.len() == n
        &&& paths.len() == n
        &&& r[s]
        &&& d[s] == 0
        &&& forall|i: int| 0 <= i < n && #[trigger] v[i] ==> r[i]
        &&& forall|i: int| 0 <= i < n && #[trigger] r[i] ==> walkable(t[i])
        &&& forall|i: int| 0 <= i < n && #[trigger] r[i] ==> d[i] <= 145 * nvis
        &&& forall|i: int|
            0 <= i < n && #[trigger] r[i] ==> is_path(t, w, h, paths[i], s, i) && forall|k: int|
                0 <= k < paths[i].len() ==> #[trigger] r[paths[i][k]]
        &&& forall|i: int|
            0 <= i < n && #[trigger] r[i] && i != s ==> {
                &&& adjacent(w, h, pred[i], i)
                &&& v[pred[i]]
                &&& d[i] == d[pred[i]] + step_cost(w, pred[i], i)
            }
        &&& forall|i: int, j: int|
            0 <= i < n && 0 <= j < n && #[trigger] v[i] && #[trigger] r[j] && !v[j] ==> d[i] <= d[j]
    }

    /// Offers tile `v` the distance `du + cost` through the settled tile `u`.
    fn relax(
        &mut self,
        Ghost(t): Ghost<Seq<TileType>>,
        Ghost(w): Ghost<int>,
        Ghost(h): Ghost<int>,
        Ghost(s): Ghost<int>,
        Ghost(nvis): Ghost<int>,
        u: usize,
        du: u64,
        v: usize,
        cost: u64,
    )
        requires
            old(self).inv(t, w, h, s, nvis),
            nvis >= 1,
            nvis <= t.len(),
            t.len() <= 1024 * 1024,
            u < t.len(),
            old(self).visited@[u as int],
            old(self).dist@[u as int] == du,
            du <= 145 * (nvis - 1),
            forall|i: int| 0 <= i < t.len() && #[trigger] old(self).visited@[i] ==> old(self).dist@[i] <= du,
            adjacent(w, h, u as int, v as int),
            walkable(t[v as int]),
            cost == step_cost(w, u as int, v as int),
        ensures
            final(self).inv(t, w, h, s, nvis),
            final(self).visited@ == old(self).visited@,
            final(self).reached@[v as int],
            final(self).dist@[v as int] <= du + cost,
            forall|j: int|
                0 <= j < t.len() && #[trigger] old(self).reached@[j] ==> final(self).reached@[j]
                    && final(self).dist@[j] <= old(self).dist@[j],
            forall|j: int|
                0 <= j < t.len() && #[trigger] old(self).visited@[j] ==> final(self).dist@[j]
                    == old(self).dist@[j],
            forall|i: int| 0 <= i < t.len() && #[trigger] final(self).visited@[i] ==> final(self).dist@[i] <= du,
    {
        let nd = du + cost;
        if !self.reached[v] || nd < self.dist[v] {
            let ghost r0 = self.reached@;
            let ghost d0 = self.dist@;
            proof {
                if self.visited@[v as int] {
                    assert(self.dist@[v as int] <= du);
                }
                let pu = self.paths@[u as int];
                let pv = pu.push(v as int);
                assert(is_path(t, w, h, pv, s, v as int)) by {
                    assert forall|k: int| 0 <= k < pv.len() - 1 implies adjacent(
                        w,
                        h,
                        #[trigger] pv[k],
                        pv[k + 1],
                    ) by {
                        if k < pu.len() - 1 {
                            assert(pv[k] == pu[k] && pv[k + 1] == pu[k + 1]);
                        }
                    }
                    assert forall|k: int| 0 <= k < pv.len() implies 0 <= #[trigger] pv[k] < t.len()
                        && walkable(t[pv[k]]) by {
                        if k < pu.len() {
                            assert(pv[k] == pu[k]);
                        }
                    }
                }
                self.pred@ = self.pred@.update(v as int, u as int);
                self.paths@ = self.paths@.update(v as int, pv);
            }
            self.reached.set(v, true);
            self.dist.set(v, nd);
            proof {
                let r = self.reached@;
                let paths = self.paths@;
                assert forall|i: int| 0 <= i < t.len() && #[trigger] r[i] implies is_path(
                    t,
                    w,
                    h,
                    paths[i],
                    s,
                    i,
                ) && forall|k: int| 0 <= k < paths[i].len() ==> #[trigger] r[paths[i][k]] by {
                    if i != v {
                        assert(r0[i]);
                        assert forall|k: int| 0 <= k < paths[i].len() implies #[trigger] r[paths[i][k]] by {
                            assert(r0[paths[i][k]]);
                        }
                    } else {
                        let pu = paths[u as int];
                        assert forall|k: int| 0 <= k < paths[i].len() implies #[trigger] r[paths[i][k]] by {
                            if k < pu.len() {
                                assert(paths[i][k] == pu[k]);
                                assert(r0[pu[k]]);
                            }
                        }
                    }
                }
                assert forall|i: int, j: int|
                    0 <= i < t.len() && 0 <= j < t.len() && #[trigger] self.visited@[i]
                        && #[trigger] r[j] && !self.visited@[j] implies self.dist@[i] <= self.dist@[j] by {
                    if j != v {
                        assert(r0[j]);
                    }
                }
            }
        }
    }
}

/// Weighted flood from `start` over the walkable tiles: steps along a row or
/// column cost 100, diagonal steps 145.
#[verifier::rlimit(100)]
pub fn flood_distances(map: &GridMap, start: usize) -> (r: FloodMap)
    requires
        map.wf(),
        start < map.tiles@.len(),
        walkable(map.tiles@[start as int]),
    ensures
        flood_ok(
            map.tiles@,
            map.width as int,
            map.height as int,
            start as int,
            r.reached@,
            r.dist@,
        ),
{
    let ghost t = map.tiles@;
    let ghost w = map.width as int;
    let ghost h = map.height as int;
    let n = map.tiles.len();
    let mut reached: Vec<bool> = Vec::new();
    let mut visited: Vec<bool> = Vec::new();
    let mut dist: Vec<u64> = Vec::new();
    let mut k: usize = 0;
    while k < n
        invariant
            k <= n,
            reached@ == Seq::new(k as nat, |i: int| false),
            visited@ == Seq::new(k as nat, |i: int| false),
            dist@ == Seq::new(k as nat, |i: int| 0u64),
        decreases n - k,
    {
        reached.push(false);
        visited.push(false);
        dist.push(0);
        k = k + 1;
    }
    reached.set(start, true);
    let mut st = Frontier {
        reached,
        visited,
        dist,
        pred: Ghost(Seq::new(n as nat, |i: int| 0)),
        paths: Ghost(Seq::new(n as nat, |i: int| seq![i])),
    };
    let ghost mut vis: Set<int> = Set::empty();
    let mut nvis: u64 = 0;
    proof {
        lemma_int_range(0, n as int);
        assert(is_path(t, w, h, st.paths@[start as int], start as int, start as int));
        assert(n <= 1024 * 1024) by (nonlinear_arith)
            requires
                n == w * h,
                1 <= w <= 1024,
                1 <= h <= 1024,
        ;
    }
    loop
        invariant
            map.wf(),
            t == map.tiles@,
            w == map.width,
            h == map.height,
            n == t.len(),
            n <= 1024 * 1024,
            walkable(t[start as int]),
            st.inv(t, w, h, start as int, nvis as int),
            vis.finite(),
            vis.subset_of(set_int_range(0, n as int)),
            vis.len() == nvis,
            nvis <= n,
            forall|i: int| 0 <= i < n ==> (vis.contains(i) == #[trigger] st.visited@[i]),
            forall|i: int, j: int|
                #[trigger] st.visited@[i] && adjacent(w, h, i, j) && walkable(#[trigger] t[j])
                    ==> st.reached@[j] && st.dist@[j] <= st.dist@[i] + step_cost(w, i, j),
        ensures
            forall|j: int| 0 <= j < n && #[trigger] st.reached@[j] ==> st.visited@[j],
        decreases n - nvis,
    {
        // The reached, unsettled tile nearest to the start.
        let mut best: usize = n;
        let mut i: usize = 0;
        while i < n
            invariant
                i <= n,
                st.reached@.len() == n,
                st.visited@.len() == n,
                st.dist@.len() == n,
                best == n || (best < i && st.reached@[best as int] && !st.visited@[best as int]),
                best == n ==> forall|j: int|
                    0 <= j < i ==> !(#[trigger] st.reached@[j] && !st.visited@[j]),
                best < n ==> forall|j: int|
                    0 <= j < i && #[trigger] st.reached@[j] && !st.visited@[j] ==> st.dist@[best as int]
                        <= st.dist@[j],
            decreases n - i,
        {
            if st.reached[i] && !st.visited[i] && (best == n || st.dist[i] < st.dist[best]) {
                best = i;
            }
            i = i + 1;
        }
        if best == n {
            break;
        }
        let u = best;
        let du = st.dist[u];
        proof {
            lemma_int_range(0, n as int);
            assert(!vis.contains(u as int));
            assert(vis.insert(u as int).subset_of(set_int_range(0, n as int)));
            lemma_len_subset(vis.insert(u as int), set_int_range(0, n as int));
            vis = vis.insert(u as int);
        }
        st.visited.set(u, true);
        nvis = nvis + 1;
        let ghost settled = st.visited@;
        proof {
            assert forall|i: int| 0 <= i < n && #[trigger] st.visited@[i] implies st.dist@[i] <= du by {
                if i != u {
                    assert(st.reached@[u as int]);
                }
            }
        }
        let x: i32 = (u % (map.width as usize)) as i32;
        let y: i32 = (u / (map.width as usize)) as i32;
        proof {
            lemma_idx_decompose(w, h, u as int);
        }
        let mut dy: i32 = -1;
        while dy <= 1
            invariant
                map.wf(),
                t == map.tiles@,
                w == map.width,
                h == map.height,
                n == t.len(),
                n <= 1024 * 1024,
                u < n,
                x == col_of(w, u as int),
                y == row_of(w, u as int),
                in_bounds(w, h, x as int, y as int),
                u == idx_of(w, x as int, y as int),
                st.inv(t, w, h, start as int, nvis as int),
                st.visited@[u as int],
                st.visited@ == settled,
                st.dist@[u as int] == du,
                du <= 145 * (nvis - 1),
                1 <= nvis <= n,
                -1 <= dy <= 2,
                forall|i: int| 0 <= i < n && #[trigger] st.visited@[i] ==> st.dist@[i] <= du,
                forall|i: int, j: int|
                    #[trigger] st.visited@[i] && i != u && adjacent(w, h, i, j) && walkable(
                        #[trigger] t[j],
                    ) ==> st.reached@[j] && st.dist@[j] <= st.dist@[i] + step_cost(w, i, j),
                forall|j: int|
                    adjacent(w, h, u as int, j) && walkable(#[trigger] t[j]) && row_of(w, j) - y
                        < dy ==> st.reached@[j] && st.dist@[j] <= du + step_cost(w, u as int, j),
            decreases 2 - dy,
        {
            let mut dx: i32 = -1;
            while dx <= 1
                invariant
                    map.wf(),
                    t == map.tiles@,
                    w == map.width,
                    h == map.height,
                    n == t.len(),
                    n <= 1024 * 1024,
                    u < n,
                    x == col_of(w, u as int),
                    y == row_of(w, u as int),
                    in_bounds(w, h, x as int, y as int),
                    u == idx_of(w, x as int, y as int),
                    st.inv(t, w, h, start as int, nvis as int),
                    st.visited@[u as int],
                    st.visited@ == settled,
                    st.dist@[u as int] == du,
                    du <= 145 * (nvis - 1),
                    1 <= nvis <= n,
                    -1 <= dy <= 1,
                    -1 <= dx <= 2,
                    forall|i: int| 0 <= i < n && #[trigger] st.visited@[i] ==> st.dist@[i] <= du,
                    forall|i: int, j: int|
                        #[trigger] st.visited@[i] && i != u && adjacent(w, h, i, j) && walkable(
                            #[trigger] t[j],
                        ) ==> st.reached@[j] && st.dist@[j] <= st.dist@[i] + step_cost(w, i, j),
                    forall|j: int|
                        adjacent(w, h, u as int, j) && walkable(#[trigger] t[j]) && (row_of(w, j)
                            - y < dy || (row_of(w, j) - y == dy && col_of(w, j) - x < dx))
                            ==> st.reached@[j] && st.dist@[j] <= du + step_cost(w, u as int, j),
                decreases 2 - dx,
            {
                let nv = map.xy_idx(x + dx, y + dy);
                let ghost r0 = st.reached@;
                let ghost d0 = st.dist@;
                if let Some(v) = nv {
                    proof {
                        lemma_idx_in_range(w, h, (x + dx) as int, (y + dy) as int);
                    }
                    if v != u && map.tiles[v] != TileType::Wall {
                        let cost: u64 = if dx == 0 || dy == 0 {
                            CARDINAL_COST
                        } else {
                            DIAGONAL_COST
                        };
                        proof {
                            assert(adjacent(w, h, u as int, v as int));
                        }
                        st.relax(
                            Ghost(t),
                            Ghost(w),
                            Ghost(h),
                            Ghost(start as int),
                            Ghost(nvis as int),
                            u,
                            du,
                            v,
                            cost,
                        );
                        proof {
                            assert forall|i: int, j: int|
                                #[trigger] st.visited@[i] && i != u && adjacent(w, h, i, j)
                                    && walkable(#[trigger] t[j]) implies st.reached@[j]
                                && st.dist@[j] <= st.dist@[i] + step_cost(w, i, j) by {
                                assert(r0[j]);
                            }
                            assert forall|j: int|
                                adjacent(w, h, u as int, j) && walkable(#[trigger] t[j]) && (row_of(
                                    w,
                                    j,
                                ) - y < dy || (row_of(w, j) - y == dy && col_of(w, j) - x < dx))
                                    implies st.reached@[j] && st.dist@[j] <= du + step_cost(
                                w,
                                u as int,
                                j,
                            ) by {
                                assert(r0[j]);
                            }
                        }
                    }
                }
                proof {
                    assert forall|j: int|
                        adjacent(w, h, u as int, j) && walkable(#[trigger] t[j]) && (row_of(w, j) - y
                            < dy || (row_of(w, j) - y == dy && col_of(w, j) - x < dx + 1))
                            implies st.reached@[j] && st.dist@[j] <= du + step_cost(w, u as int, j) by {
                        lemma_neighbor_coords(w, h, u as int, x as int, y as int, j);
                        if row_of(w, j) - y == dy && col_of(w, j) - x == dx {
                            assert(nv.is_some());
                        }
                    }
                }
                dx = dx + 1;
            }
            dy = dy + 1;
        }
        proof {
            assert forall|i: int, j: int|
                #[trigger] st.visited@[i] && adjacent(w, h, i, j) && walkable(#[trigger] t[j])
                    implies st.reached@[j] && st.dist@[j] <= st.dist@[i] + step_cost(w, i, j) by {
                if i == u {
                    lemma_neighbor_coords(w, h, u as int, x as int, y as int, j);
                }
            }
        }
    }
    proof {
        let r = st.reached@;
        let d = st.dist@;
        assert forall|i: int|
            0 <= i < n && #[trigger] r[i] && i != start implies exists|j: int|
                adjacent(w, h, j, i) && #[trigger] r[j] && d[i] == d[j] + step_cost(w, j, i) by {
            assert(r[st.pred@[i]]);
        }
        assert forall|i: int| 0 <= i < n && #[trigger] r[i] implies exists|p: Seq<int>|
            is_path(t, w, h, p, start as int, i) && forall|k: int| 0 <= k < p.len() ==> #[trigger] r[p[k]] by {
            assert(is_path(t, w, h, st.paths@[i], start as int, i));
        }
        assert forall|i: int, j: int|
            #[trigger] r[i] && adjacent(w, h, i, j) && walkable(#[trigger] t[j]) implies r[j]
                && d[j] <= d[i] + step_cost(w, i, j) by {
            assert(st.visited@[i]);
        }
    }
    proof {
        reveal(flood_ok);
    }
    FloodMap { reached: st.reached, dist: st.dist }
}

/// `t` with every tile the flood did not reach turned to wall.
pub open spec fn pruned(t: Seq<TileType>, reached: Seq<bool>) -> Seq<TileType> {
    Seq::new(t.len(), |i: int| if reached[i] { t[i] } else { TileType::Wall })
}

/// A path stays a path on tiles that are walkable wherever it goes.
pub proof fn lemma_path_transfer(t: Seq<TileType>, t2: Seq<TileType>, w: int, h: int, p: Seq<int>, s: int, e: int)
    requires
        is_path(t, w, h, p, s, e),
        t2.len() == t.len(),
        forall|k: int| 0 <= k < p.len() ==> walkable(t2[#[trigger] p[k]]),
    ensures
        is_path(t2, w, h, p, s, e),
{
}

/// After pruning, every walkable tile can be walked to from the start.
proof fn lemma_pruned_connected(t: Seq<TileType>, w: int, h: int, s: int, reached: Seq<bool>, dist: Seq<u64>)
    requires
        flood_ok(t, w, h, s, reached, dist),
    ensures
        all_walkable_connected(pruned(t, reached), w, h, s),
{
    let t2 = pruned(t, reached);
    reveal(flood_ok);
    assert forall|i: int| 0 <= i < t2.len() && walkable(#[trigger] t2[i]) implies connected(t2, w, h, s, i) by {
        assert(reached[i]);
        let p = choose|p: Seq<int>|
            is_path(t, w, h, p, s, i) && forall|k: int| 0 <= k < p.len() ==> #[trigger] reached[p[k]];
        assert forall|k: int| 0 <= k < p.len() implies walkable(t2[#[trigger] p[k]]) by {
            assert(reached[p[k]]);
        }
        lemma_path_transfer(t, t2, w, h, p, s, i);
    }
}

#[verifier::rlimit(100)]
/// Turns every tile that cannot be walked to from `start_idx` into wall and
/// returns the reached tile farthest from it (the first such tile in index
/// order), with the flood it was measured by.
pub fn remove_unreachable_areas_returning_most_distant(map: &mut GridMap, start_idx: usize) -> (r: (
    usize,
    FloodMap,
))
    requires
        old(map).wf(),
        start_idx < old(map).tiles@.len(),
        walkable(old(map).tiles@[start_idx as int]),
    ensures
        final(map).wf(),
        final(map).same_shape(old(map)),
        flood_ok(
            old(map).tiles@,
            old(map).width as int,
            old(map).height as int,
            start_idx as int,
            r.1.reached@,
            r.1.dist@,
        ),
        final(map).tiles@ == pruned(old(map).tiles@, r.1.reached@),
        r.1.reached@.len() == old(map).tiles@.len(),
        r.1.dist@.len() == old(map).tiles@.len(),
        r.1.reached@[start_idx as int],
        r.1.dist@[start_idx as int] == 0,
        r.0 < final(map).tiles@.len(),
        r.1.reached@[r.0 as int],
        forall|i: int| 0 <= i < r.1.dist@.len() && #[trigger] r.1.reached@[i] ==> r.1.dist@[i] <= r.1.dist@[r.0 as int],
        all_walkable_connected(final(map).tiles@, final(map).width as int, final(map).height as int, start_idx as int),
{
    let ghost o = map.tiles@;
    let flood = flood_distances(map, start_idx);
    proof {
        reveal(flood_ok);
    }
    let n = map.tiles.len();
    let mut i: usize = 0;
    let mut best: usize = start_idx;
    while i < n
        invariant
            map.wf(),
            map.same_shape(old(map)),
            n == o.len(),
            o == old(map).tiles@,
            flood_ok(o, map.width as int, map.height as int, start_idx as int, flood.reached@, flood.dist@),
            i <= n,
            best < n,
            flood.reached@.len() == n,
            flood.dist@.len() == n,
            flood.reached@[start_idx as int],
            flood.reached@[best as int],
            forall|j: int| 0 <= j < i && #[trigger] flood.reached@[j] ==> flood.dist@[j] <= flood.dist@[best as int],
            forall|j: int| 0 <= j < n ==> #[trigger] map.tiles@[j] == if j < i { pruned(o, flood.reached@)[j] } else { o[j] },
        decreases n - i,
    {
        if !flood.reached[i] {
            map.tiles.set(i, TileType::Wall);
        } else if flood.dist[i] > flood.dist[best] {
            best = i;
        }
        i = i + 1;
    }
    proof {
        assert(map.tiles@ =~= pruned(o, flood.reached@));
        lemma_pruned_connected(o, map.width as int, map.height as int, start_idx as int, flood.reached@, flood.dist@);
    }
    (best, flood)
}

/// A flood of a map is also a flood of the map pruned to what it reached,
/// with the stairs put on one of the reached tiles.
#[verifier::rlimit(100)]
proof fn lemma_flood_of_finished(t: Seq<TileType>, w: int, h: int, s: int, reached: Seq<bool>, dist: Seq<u64>, exit: int)
    requires
        t.len() == w * h,
        flood_ok(t, w, h, s, reached, dist),
        0 <= exit < t.len(),
        reached[exit],
    ensures
        flood_ok(pruned(t, reached).update(exit, TileType::DownStairs), w, h, s, reached, dist),
{
    reveal(flood_ok);
    let f = pruned(t, reached).update(exit, TileType::DownStairs);
    assert forall|i: int| 0 <= i < f.len() && #[trigger] reached[i] implies exists|p: Seq<int>|
        is_path(f, w, h, p, s, i) && forall|k: int| 0 <= k < p.len() ==> #[trigger] reached[p[k]] by {
        let p = choose|p: Seq<int>| is_path(t, w, h, p, s, i) && forall|k: int| 0 <= k < p.len() ==> #[trigger] reached[p[k]];
        assert forall|k: int| 0 <= k < p.len() implies walkable(f[#[trigger] p[k]]) by {
            assert(reached[p[k]]);
        }
        lemma_path_transfer(t, f, w, h, p, s, i);
    }
    assert forall|i: int, j: int|
        #[trigger] reached[i] && adjacent(w, h, i, j) && walkable(#[trigger] f[j]) implies reached[j]
            && dist[j] <= dist[i] + step_cost(w, i, j) by {
        if j == exit {
            assert(walkable(t[exit]));
        } else {
            assert(0 <= j < t.len());
            assert(f[j] == pruned(t, reached)[j]);
            assert(reached[j]);
            assert(walkable(t[j]));
        }
    }
}

/// Prunes what cannot be reached from `start_idx` and puts the down stairs on
/// the reached tile farthest from it.
pub fn finish_with_stairs(map: &mut GridMap, start_idx: usize) -> (r: (usize, FloodMap))
    requires
        old(map).wf(),
        start_idx < old(map).tiles@.len(),
        walkable(old(map).tiles@[start_idx as int]),
    ensures
        final(map).wf(),
        final(map).same_shape(old(map)),
        flood_ok(
            old(map).tiles@,
            old(map).width as int,
            old(map).height as int,
            start_idx as int,
            r.1.reached@,
            r.1.dist@,
        ),
        final(map).tiles@ == pruned(old(map).tiles@, r.1.reached@).update(r.0 as int, TileType::DownStairs),
        r.1.reached@.len() == old(map).tiles@.len(),
        r.1.dist@.len() == old(map).tiles@.len(),
        r.1.reached@[start_idx as int],
        r.1.dist@[start_idx as int] == 0,
        walkable(final(map).tiles@[start_idx as int]),
        r.0 < final(map).tiles@.len(),
        walkable(old(map).tiles@[r.0 as int]),
        (exists|i: int| 0 <= i < r.1.reached@.len() && i != start_idx && #[trigger] r.1.reached@[i]) ==> r.0
            != start_idx && r.1.dist@[r.0 as int] > 0,
        r.1.reached@[r.0 as int],
        forall|i: int| 0 <= i < r.1.dist@.len() && #[trigger] r.1.reached@[i] ==> r.1.dist@[i] <= r.1.dist@[r.0 as int],
        all_walkable_connected(final(map).tiles@, final(map).width as int, final(map).height as int, start_idx as int),
        forall|i: int| 0 <= i < final(map).tiles@.len() && i != r.0 && #[trigger] final(map).tiles@[i] == TileType::DownStairs
            ==> old(map).tiles@[i] == TileType::DownStairs,
        forall|i: int| 0 <= i < final(map).tiles@.len() && #[trigger] walkable(final(map).tiles@[i]) ==> r.1.reached@[i],
        flood_ok(
            final(map).tiles@,
            final(map).width as int,
            final(map).height as int,
            start_idx as int,
            r.1.reached@,
            r.1.dist@,
        ),
{
    let (exit, flood) = remove_unreachable_areas_returning_most_distant(map, start_idx);
    let ghost t0 = old(map).tiles@;
    let ghost t1 = map.tiles@;
    map.tiles.set(exit, TileType::DownStairs);
    proof {
        reveal(flood_ok);
        if exists|i: int| 0 <= i < flood.reached@.len() && i != start_idx && #[trigger] flood.reached@[i] {
            let i = choose|i: int| 0 <= i < flood.reached@.len() && i != start_idx && #[trigger] flood.reached@[i];
            let j = choose|j: int|
                adjacent(map.width as int, map.height as int, j, i) && #[trigger] flood.reached@[j] && flood.dist@[i]
                    == flood.dist@[j] + step_cost(map.width as int, j, i);
            assert(flood.dist@[i] > 0);
            assert(flood.dist@[exit as int] >= flood.dist@[i]);
        }
    }
    proof {
        lemma_flood_of_finished(t0, map.width as int, map.height as int, start_idx as int, flood.reached@, flood.dist@, exit as int);
        reveal(flood_ok);
        let w = map.width as int;
        let h = map.height as int;
        let t2 = map.tiles@;
        assert forall|i: int| 0 <= i < t2.len() && walkable(#[trigger] t2[i]) implies connected(t2, w, h, start_idx as int, i) by {
            assert(walkable(t1[i]));
            let p = choose|p: Seq<int>| is_path(t1, w, h, p, start_idx as int, i);
            assert forall|k: int| 0 <= k < p.len() implies walkable(t2[#[trigger] p[k]]) by {
                assert(walkable(t1[p[k]]));
            }
            lemma_path_transfer(t1, t2, w, h, p, start_idx as int, i);
        }
    }
    (exit, flood)
}

/// A flood reaches its start.
pub proof fn lemma_flood_start(t: Seq<TileType>, w: int, h: int, s: int, reached: Seq<bool>, dist: Seq<u64>)
    requires
        flood_ok(t, w, h, s, reached, dist),
    ensures
        reached[s],
        0 <= s < t.len(),
{
    reveal(flood_ok);
}

/// A flood reaches every walkable neighbour of a tile it reached.
pub proof fn lemma_flood_closed(t: Seq<TileType>, w: int, h: int, s: int, reached: Seq<bool>, dist: Seq<u64>, i: int, j: int)
    requires
        flood_ok(t, w, h, s, reached, dist),
        0 <= i < t.len(),
        reached[i],
        adjacent(w, h, i, j),
        walkable(t[j]),
    ensures
        reached[j],
{
    reveal(flood_ok);
}

} // verus!
