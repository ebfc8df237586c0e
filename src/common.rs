use vstd::prelude::*;
use crate::map::{GridMap, TileType, col_of, row_of, idx_of, in_bounds, lemma_idx_in_range, lemma_idx_decompose};
use crate::rect::Rect;

verus! {

/// Tile `i` of a width-`w` map lies in columns `xa..=xb` and rows `ya..=yb`.
pub open spec fn in_box(w: int, i: int, xa: int, xb: int, ya: int, yb: int) -> bool {
    xa <= col_of(w, i) <= xb && ya <= row_of(w, i) <= yb
}

/// `old` with every tile of the box (tile 0 spared when `spare_origin`) turned to floor.
pub open spec fn carved(
    old: Seq<TileType>,
    w: int,
    xa: int,
    xb: int,
    ya: int,
    yb: int,
    spare_origin: bool,
) -> Seq<TileType> {
    Seq::new(
        old.len(),
        |i: int|
            if in_box(w, i, xa, xb, ya, yb) && !(spare_origin && i == 0) {
                TileType::Floor
            } else {
                old[i]
            },
    )
}

/// Only the tiles changed; dimensions and the other per-tile arrays stay.
pub open spec fn tiles_only_changed(a: &GridMap, b: &GridMap) -> bool {
    &&& b.wf()
    &&& b.same_shape(a)
}

proof fn lemma_unique_coords(w: int, h: int, i: int, x: int, y: int)
    requires
        0 < w,
        0 < h,
        0 <= i < w * h,
        in_bounds(w, h, x, y),
        col_of(w, i) == x,
        row_of(w, i) == y,
    ensures
        i == idx_of(w, x, y),
{
    lemma_idx_decompose(w, h, i);
}

pub(crate) fn carve_box(map: &mut GridMap, xa: i32, xb: i32, ya: i32, yb: i32, spare_origin: bool)
    requires
        old(map).wf(),
    ensures
        tiles_only_changed(old(map), final(map)),
        final(map).tiles@ == carved(
            old(map).tiles@,
            old(map).width as int,
            xa as int,
            xb as int,
            ya as int,
            yb as int,
            spare_origin,
        ),
{
    let ghost w = map.width as int;
    let ghost h = map.height as int;
    let ghost n = map.tiles@.len();
    let ghost o = map.tiles@;
    let xs: i32 = if xa < 0 { 0 } else { xa };
    let xe: i32 = if xb > map.width - 1 { map.width - 1 } else { xb };
    let ys: i32 = if ya < 0 { 0 } else { ya };
    let ye: i32 = if yb > map.height - 1 { map.height - 1 } else { yb };
    proof {
        assert forall|i: int| 0 <= i < n implies
            in_box(w, i, xa as int, xb as int, ya as int, yb as int)
                == in_box(w, i, xs as int, xe as int, ys as int, ye as int) by {
            lemma_idx_decompose(w, h, i);
        }
    }
    if xs > xe || ys > ye {
        proof {
            assert(map.tiles@ =~= carved(o, w, xa as int, xb as int, ya as int, yb as int, spare_origin));
        }
        return;
    }
    let mut y: i32 = ys;
    while y <= ye
        invariant
            tiles_only_changed(old(map), map),
            map.width == w,
            map.height == h,
            n == o.len(),
            o == old(map).tiles@,
            ys <= y,
            ye <= h - 1,
            0 <= ys,
            0 <= xs,
            xe <= w - 1,
            y <= ye + 1,
            xs <= xe,
            map.tiles@ == carved(o, w, xs as int, xe as int, ys as int, y - 1, spare_origin),
        decreases ye + 1 - y,
    {
        let mut x: i32 = xs;
        while x <= xe
            invariant
                tiles_only_changed(old(map), map),
                map.width == w,
                map.height == h,
                n == o.len(),
                ys <= y <= ye,
                ye <= h - 1,
                0 <= ys,
                0 <= xs,
                xe <= w - 1,
                xs <= x <= xe + 1,
                xs <= xe,
                x <= w,
                map.tiles@ == Seq::new(
                    n,
                    |i: int|
                        if (in_box(w, i, xs as int, xe as int, ys as int, y - 1) || (row_of(w, i)
                            == y && xs <= col_of(w, i) < x)) && !(spare_origin && i == 0) {
                            TileType::Floor
                        } else {
                            o[i]
                        },
                ),
            decreases xe + 1 - x,
        {
            let idx = map.xy_idx(x, y).unwrap();
            let ghost before = map.tiles@;
            if !(spare_origin && idx == 0) {
                map.tiles.set(idx, TileType::Floor);
            }
            proof {
                lemma_idx_in_range(w, h, x as int, y as int);
                assert forall|i: int| 0 <= i < n implies map.tiles@[i] == (if (in_box(
                    w,
                    i,
                    xs as int,
                    xe as int,
                    ys as int,
                    y - 1,
                ) || (row_of(w, i) == y && xs <= col_of(w, i) < x + 1)) && !(spare_origin && i
                    == 0) {
                    TileType::Floor
                } else {
                    o[i]
                }) by {
                    if row_of(w, i) == y && col_of(w, i) == x {
                        lemma_unique_coords(w, h, i, x as int, y as int);
                    }
                }
            }
            x = x + 1;
            assert(map.tiles@ =~= Seq::new(
                n,
                |i: int|
                    if (in_box(w, i, xs as int, xe as int, ys as int, y - 1) || (row_of(w, i) == y
                        && xs <= col_of(w, i) < x)) && !(spare_origin && i == 0) {
                        TileType::Floor
                    } else {
                        o[i]
                    },
            ));
        }
        proof {
            assert forall|i: int| 0 <= i < n implies
                (in_box(w, i, xs as int, xe as int, ys as int, y - 1) || (row_of(w, i) == y && xs
                    <= col_of(w, i) < x)) == in_box(w, i, xs as int, xe as int, ys as int, y as int) by {
                lemma_idx_decompose(w, h, i);
            }
        }
        y = y + 1;
        assert(map.tiles@ =~= carved(o, w, xs as int, xe as int, ys as int, y - 1, spare_origin));
    }
    assert(map.tiles@ =~= carved(o, w, xa as int, xb as int, ya as int, yb as int, spare_origin));
}

/// Turns the inside of `room` (its corners' row and column excluded on the
/// top-left side) to floor, clipped to the map.
pub fn apply_room_to_map(map: &mut GridMap, room: &Rect)
    requires
        old(map).wf(),
        room.x1 < i32::MAX,
        room.y1 < i32::MAX,
    ensures
        tiles_only_changed(old(map), final(map)),
        final(map).tiles@ == carved(
            old(map).tiles@,
            old(map).width as int,
            room.x1 + 1,
            room.x2 as int,
            room.y1 + 1,
            room.y2 as int,
            false,
        ),
{
    carve_box(map, room.x1 + 1, room.x2, room.y1 + 1, room.y2, false);
}

/// Turns row `y` from column min(x1, x2) to max(x1, x2) to floor, clipped to
/// the map; tile 0 is never carved.
pub fn apply_horizontal_tunnel(map: &mut GridMap, x1: i32, x2: i32, y: i32)
    requires
        old(map).wf(),
    ensures
        tiles_only_changed(old(map), final(map)),
        final(map).tiles@ == carved(
            old(map).tiles@,
            old(map).width as int,
            if x1 <= x2 { x1 as int } else { x2 as int },
            if x1 <= x2 { x2 as int } else { x1 as int },
            y as int,
            y as int,
            true,
        ),
{
    if x1 <= x2 {
        carve_box(map, x1, x2, y, y, true);
    } else {
        carve_box(map, x2, x1, y, y, true);
    }
}

/// Turns column `x` from row min(y1, y2) to max(y1, y2) to floor, clipped to
/// the map; tile 0 is never carved.
pub fn apply_vertical_tunnel(map: &mut GridMap, y1: i32, y2: i32, x: i32)
    requires
        old(map).wf(),
    ensures
        tiles_only_changed(old(map), final(map)),
        final(map).tiles@ == carved(
            old(map).tiles@,
            old(map).width as int,
            x as int,
            x as int,
            if y1 <= y2 { y1 as int } else { y2 as int },
            if y1 <= y2 { y2 as int } else { y1 as int },
            true,
        ),
{
    if y1 <= y2 {
        carve_box(map, x, x, y1, y2, true);
    } else {
        carve_box(map, x, x, y2, y1, true);
    }
}

/// Carving never takes floor away.
pub proof fn lemma_carved_keeps_floor(
    old: Seq<TileType>,
    w: int,
    xa: int,
    xb: int,
    ya: int,
    yb: int,
    s: bool,
    i: int,
)
    requires
        0 <= i < old.len(),
        old[i] == TileType::Floor,
    ensures
        carved(old, w, xa, xb, ya, yb, s)[i] == TileType::Floor,
{
}

/// A tile inside the box comes out of carving as floor.
pub proof fn lemma_carved_sets_floor(
    old: Seq<TileType>,
    w: int,
    h: int,
    xa: int,
    xb: int,
    ya: int,
    yb: int,
    s: bool,
    x: int,
    y: int,
)
    requires
        old.len() == w * h,
        in_bounds(w, h, x, y),
        xa <= x <= xb,
        ya <= y <= yb,
        !(s && idx_of(w, x, y) == 0),
    ensures
        carved(old, w, xa, xb, ya, yb, s)[idx_of(w, x, y)] == TileType::Floor,
{
    lemma_idx_in_range(w, h, x, y);
}

} // verus!
