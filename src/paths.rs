use vstd::prelude::*;
use crate::flood::{
    adjacent, all_walkable_connected, connected, flood_ok, is_path, lemma_flood_closed, lemma_flood_start,
    lemma_path_transfer, pruned,
};
use crate::map::{TileType, walkable, col_of, row_of, idx_of, lemma_idx_in_range};

verus! {

proof fn lemma_path_reached(t: Seq<TileType>, w: int, h: int, s: int, reached: Seq<bool>, dist: Seq<u64>, p: Seq<int>, e: int, k: int)
    requires
        flood_ok(t, w, h, s, reached, dist),
        is_path(t, w, h, p, s, e),
        0 <= k < p.len(),
    ensures
        reached[p[k]],
    decreases k,
{
    if k > 0 {
        lemma_path_reached(t, w, h, s, reached, dist, p, e, k - 1);
        assert(adjacent(w, h, p[k - 1], p[k]));
        assert(walkable(t[p[k]]));
        lemma_flood_closed(t, w, h, s, reached, dist, p[k - 1], p[k]);
    } else {
        lemma_flood_start(t, w, h, s, reached, dist);
    }
}

/// A flood from `s` reaches every tile that can be walked to from `s`: so
/// on a finished level, where every walkable tile can be walked to from the
/// start, flooding again from the start leaves no walkable tile unreached.
pub proof fn reflood_reaches_every_walkable_tile(
    t: Seq<TileType>,
    w: int,
    h: int,
    s: int,
    reached: Seq<bool>,
    dist: Seq<u64>,
)
    requires
        all_walkable_connected(t, w, h, s),
        flood_ok(t, w, h, s, reached, dist),
    ensures
        forall|i: int| 0 <= i < t.len() && walkable(#[trigger] t[i]) ==> reached[i],
{
    assert forall|i: int| 0 <= i < t.len() && walkable(#[trigger] t[i]) implies reached[i] by {
        assert(connected(t, w, h, s, i));
        let p = choose|p: Seq<int>| is_path(t, w, h, p, s, i);
        lemma_path_reached(t, w, h, s, reached, dist, p, i, p.len() - 1);
    }
}

/// After pruning a map that held no down stairs and putting them on the
/// farthest reached tile, exactly that tile holds down stairs, and no
/// walkable tile lies farther from the start.
pub proof fn stairs_unique_and_farthest(
    t: Seq<TileType>,
    reached: Seq<bool>,
    dist: Seq<u64>,
    exit: int,
    fin: Seq<TileType>,
)
    requires
        reached.len() == t.len(),
        dist.len() == t.len(),
        forall|i: int| 0 <= i < t.len() ==> #[trigger] t[i] != TileType::DownStairs,
        0 <= exit < t.len(),
        reached[exit],
        forall|i: int| 0 <= i < t.len() && #[trigger] reached[i] ==> dist[i] <= dist[exit],
        fin == pruned(t, reached).update(exit, TileType::DownStairs),
    ensures
        forall|i: int| 0 <= i < fin.len() ==> (#[trigger] fin[i] == TileType::DownStairs <==> i == exit),
        forall|i: int| 0 <= i < fin.len() && walkable(#[trigger] fin[i]) ==> reached[i] && dist[i] <= dist[exit],
{
}

/// Every tile of columns `xa..=xb` and rows `ya..=yb` lies on the map and
/// is walkable.
pub open spec fn box_walkable(t: Seq<TileType>, w: int, h: int, xa: int, xb: int, ya: int, yb: int) -> bool {
    &&& 0 <= xa
    &&& xb < w
    &&& 0 <= ya
    &&& yb < h
    &&& forall|i: int|
        0 <= i < t.len() && xa <= col_of(w, i) <= xb && ya <= row_of(w, i) <= yb ==> walkable(#[trigger] t[i])
}

pub open spec fn step_toward(a: int, b: int) -> int {
    if a < b { a + 1 } else if a > b { a - 1 } else { a }
}

/// Two tiles of a walkable box can be walked between without leaving it.
pub proof fn lemma_box_connected(
    t: Seq<TileType>,
    w: int,
    h: int,
    xa: int,
    xb: int,
    ya: int,
    yb: int,
    x1: int,
    y1: int,
    x2: int,
    y2: int,
)
    requires
        t.len() == w * h,
        box_walkable(t, w, h, xa, xb, ya, yb),
        xa <= x1 <= xb,
        ya <= y1 <= yb,
        xa <= x2 <= xb,
        ya <= y2 <= yb,
    ensures
        connected(t, w, h, idx_of(w, x1, y1), idx_of(w, x2, y2)),
    decreases (if x1 >= x2 { x1 - x2 } else { x2 - x1 }) + (if y1 >= y2 { y1 - y2 } else { y2 - y1 }),
{
    lemma_idx_in_range(w, h, x1, y1);
    let i1 = idx_of(w, x1, y1);
    assert(walkable(t[i1]));
    if x1 == x2 && y1 == y2 {
        let p = seq![i1];
        assert(is_path(t, w, h, p, i1, i1));
    } else {
        let nx = step_toward(x1, x2);
        let ny = step_toward(y1, y2);
        lemma_box_connected(t, w, h, xa, xb, ya, yb, nx, ny, x2, y2);
        lemma_idx_in_range(w, h, nx, ny);
        let i2 = idx_of(w, nx, ny);
        assert(walkable(t[i2]));
        let e = idx_of(w, x2, y2);
        let q = choose|q: Seq<int>| is_path(t, w, h, q, i2, e);
        let p = seq![i1] + q;
        assert(i1 != i2) by {
            if i1 == i2 {
                assert(col_of(w, i1) == col_of(w, i2));
            }
        }
        assert(adjacent(w, h, i1, i2));
        assert forall|k: int| 0 <= k < p.len() - 1 implies adjacent(w, h, #[trigger] p[k], p[k + 1]) by {
            if k > 0 {
                assert(p[k] == q[k - 1] && p[k + 1] == q[k]);
            }
        }
        assert forall|k: int| 0 <= k < p.len() implies 0 <= #[trigger] p[k] < t.len() && walkable(t[p[k]]) by {
            if k > 0 {
                assert(p[k] == q[k - 1]);
            }
        }
        assert(p.last() == q.last());
        assert(is_path(t, w, h, p, i1, e));
    }
}

/// Walking from `s` to `a` and on from `a` to `b` walks from `s` to `b`.
pub proof fn lemma_connected_trans(t: Seq<TileType>, w: int, h: int, s: int, a: int, b: int)
    requires
        connected(t, w, h, s, a),
        connected(t, w, h, a, b),
    ensures
        connected(t, w, h, s, b),
{
    let p1 = choose|p: Seq<int>| is_path(t, w, h, p, s, a);
    let p2 = choose|p: Seq<int>| is_path(t, w, h, p, a, b);
    let p = p1 + p2.drop_first();
    assert forall|k: int| 0 <= k < p.len() - 1 implies adjacent(w, h, #[trigger] p[k], p[k + 1]) by {
        if k < p1.len() - 1 {
            assert(p[k] == p1[k] && p[k + 1] == p1[k + 1]);
        } else if k == p1.len() - 1 {
            assert(p[k] == p2[0] && p[k + 1] == p2[1]);
        } else {
            assert(p[k] == p2[k - p1.len() + 1] && p[k + 1] == p2[k - p1.len() + 2]);
        }
    }
    assert forall|k: int| 0 <= k < p.len() implies 0 <= #[trigger] p[k] < t.len() && walkable(t[p[k]]) by {
        if k < p1.len() {
            assert(p[k] == p1[k]);
        } else {
            assert(p[k] == p2[k - p1.len() + 1]);
        }
    }
    if p2.len() == 1 {
        assert(p.last() == p1.last());
    } else {
        assert(p.last() == p2.last());
    }
    assert(is_path(t, w, h, p, s, b));
}

/// Connections survive turning tiles walkable.
pub proof fn lemma_connected_grow(t: Seq<TileType>, t2: Seq<TileType>, w: int, h: int, s: int, e: int)
    requires
        connected(t, w, h, s, e),
        t2.len() == t.len(),
        forall|i: int| 0 <= i < t.len() && walkable(#[trigger] t[i]) ==> walkable(t2[i]),
    ensures
        connected(t2, w, h, s, e),
{
    let p = choose|p: Seq<int>| is_path(t, w, h, p, s, e);
    assert forall|k: int| 0 <= k < p.len() implies walkable(t2[#[trigger] p[k]]) by {
        assert(walkable(t[p[k]]));
    }
    lemma_path_transfer(t, t2, w, h, p, s, e);
}

/// One more step onto a walkable neighbour extends a walk.
pub proof fn lemma_connected_step(t: Seq<TileType>, w: int, h: int, s: int, a: int, b: int)
    requires
        connected(t, w, h, s, a),
        adjacent(w, h, a, b),
        t.len() == w * h,
        walkable(t[a]),
        walkable(t[b]),
    ensures
        connected(t, w, h, s, b),
{
    let p = seq![a, b];
    assert(p[0] == a && p[1] == b);
    assert(is_path(t, w, h, p, a, b));
    lemma_connected_trans(t, w, h, s, a, b);
}

/// A walkable tile can be walked to from itself.
pub proof fn lemma_connected_self(t: Seq<TileType>, w: int, h: int, a: int)
    requires
        0 <= a < t.len(),
        walkable(t[a]),
    ensures
        connected(t, w, h, a, a),
{
    let p = seq![a];
    assert(is_path(t, w, h, p, a, a));
}

} // verus!
