use vstd::prelude::*;
use crate::common::{carve_box, carved, in_box, lemma_carved_keeps_floor, tiles_only_changed};
use crate::map::{GridMap, TileType, lemma_idx_decompose, lemma_idx_in_range};

verus! {

/// Which axes a stamp is mirrored across.
#[derive(Clone, Copy, PartialEq, Eq, Structural, Debug)]
pub enum DLASymmetry {
    Both,
    Horizontal,
    NoSymmetry,
    Vertical,
}

pub open spec fn spec_max(a: int, b: int) -> int {
    if a >= b { a } else { b }
}

pub open spec fn spec_min(a: int, b: int) -> int {
    if a <= b { a } else { b }
}

/// Tiles after one stamp of a `brush`-wide brush at (x, y): a single tile
/// for a brush of one, else the square of side 2 * (brush / 2) starting
/// brush / 2 up and left of (x, y), kept off the two outermost rings.
pub open spec fn painted(old: Seq<TileType>, w: int, h: int, brush: int, x: int, y: int) -> Seq<
    TileType,
> {
    if brush == 1 {
        carved(old, w, x, x, y, y, false)
    } else {
        let half = brush / 2;
        carved(
            old,
            w,
            spec_max(x - half, 2),
            spec_min(x + half - 1, w - 2),
            spec_max(y - half, 2),
            spec_min(y + half - 1, h - 2),
            false,
        )
    }
}

/// Stamps floor with a square brush centred on (x, y); what falls off the
/// map is left out.
pub fn apply_paint(map: &mut GridMap, brush_size: i32, x: i32, y: i32)
    requires
        old(map).wf(),
        1 <= brush_size,
    ensures
        tiles_only_changed(old(map), final(map)),
        final(map).tiles@ == painted(
            old(map).tiles@,
            old(map).width as int,
            old(map).height as int,
            brush_size as int,
            x as int,
            y as int,
        ),
        brush_size == 1 && old(map).in_map(x as int, y as int) ==> {
            &&& final(map).tiles@[old(map).idx(x as int, y as int)] == TileType::Floor
            &&& forall|j: int|
                0 <= j < final(map).tiles@.len() && j != old(map).idx(x as int, y as int)
                    ==> final(map).tiles@[j] == old(map).tiles@[j]
        },
{
    if brush_size == 1 {
        carve_box(map, x, x, y, y, false);
        proof {
            let w = map.width as int;
            let h = map.height as int;
            if map.in_map(x as int, y as int) {
                lemma_idx_in_range(w, h, x as int, y as int);
                assert forall|j: int|
                    0 <= j < map.tiles@.len() && j != map.idx(x as int, y as int) implies
                    !in_box(w, j, x as int, x as int, y as int, y as int) by {
                    lemma_idx_decompose(w, h, j);
                }
            }
        }
    } else {
        let half = (brush_size / 2) as i64;
        let w = map.width as i64;
        let h = map.height as i64;
        // The stamp's bounds, clipped to the inner area; a bound beyond the
        // far side is pulled in only as far as leaves the stamp empty.
        let xa0: i64 = if x as i64 - half > 2 { x as i64 - half } else { 2 };
        let xb0: i64 = if x as i64 + half - 1 < w - 2 { x as i64 + half - 1 } else { w - 2 };
        let ya0: i64 = if y as i64 - half > 2 { y as i64 - half } else { 2 };
        let yb0: i64 = if y as i64 + half - 1 < h - 2 { y as i64 + half - 1 } else { h - 2 };
        let xa: i32 = if xa0 > w { w as i32 } else { xa0 as i32 };
        let xb: i32 = if xb0 < -1 { -1 } else { xb0 as i32 };
        let ya: i32 = if ya0 > h { h as i32 } else { ya0 as i32 };
        let yb: i32 = if yb0 < -1 { -1 } else { yb0 as i32 };
        let ghost o = map.tiles@;
        carve_box(map, xa, xb, ya, yb, false);
        proof {
            let wi = map.width as int;
            let hi = map.height as int;
            assert forall|i: int| 0 <= i < o.len() implies in_box(wi, i, xa as int, xb as int, ya as int, yb as int)
                == in_box(wi, i, xa0 as int, xb0 as int, ya0 as int, yb0 as int) by {
                lemma_idx_decompose(wi, hi, i);
            }
            assert(map.tiles@ =~= carved(o, wi, xa0 as int, xb0 as int, ya0 as int, yb0 as int, false));
        }
    }
}

/// Tiles after painting at (x, y) on a `w` by `h` map with brush `b` and
/// the given symmetry: the stamp at (x, y), then at its mirror images
/// (w - 1 - x, y) and/or (x, h - 1 - y), each once.
pub open spec fn painted_sym(o: Seq<TileType>, w: int, h: int, symmetry: DLASymmetry, b: int, x: int, y: int) -> Seq<TileType> {
    let mx = w - 1 - x;
    let my = h - 1 - y;
    match symmetry {
        DLASymmetry::NoSymmetry => painted(o, w, h, b, x, y),
        DLASymmetry::Horizontal => if mx == x {
            painted(o, w, h, b, x, y)
        } else {
            painted(painted(o, w, h, b, x, y), w, h, b, mx, y)
        },
        DLASymmetry::Vertical => if my == y {
            painted(o, w, h, b, x, y)
        } else {
            painted(painted(o, w, h, b, x, y), w, h, b, x, my)
        },
        DLASymmetry::Both => if mx == x && my == y {
            painted(o, w, h, b, x, y)
        } else {
            painted(painted(painted(o, w, h, b, x, y), w, h, b, mx, y), w, h, b, x, my)
        },
    }
}

/// Stamps floor at (x, y) and at its mirror images that `symmetry` asks
/// for: (width - 1 - x, y) across the vertical axis, (x, height - 1 - y)
/// across the horizontal one. A mirror image equal to (x, y) is stamped once.
pub fn paint(map: &mut GridMap, symmetry: DLASymmetry, brush_size: i32, x: i32, y: i32)
    requires
        old(map).wf(),
        1 <= brush_size,
        old(map).in_map(x as int, y as int),
    ensures
        tiles_only_changed(old(map), final(map)),
        final(map).tiles@ == painted_sym(
            old(map).tiles@,
            old(map).width as int,
            old(map).height as int,
            symmetry,
            brush_size as int,
            x as int,
            y as int,
        ),
        brush_size == 1 ==> final(map).tiles@[old(map).idx(x as int, y as int)] == TileType::Floor,
        brush_size == 1 && (symmetry == DLASymmetry::Horizontal || symmetry == DLASymmetry::Both)
            ==> final(map).tiles@[old(map).idx(old(map).width - 1 - x, y as int)]
            == TileType::Floor,
        brush_size == 1 && (symmetry == DLASymmetry::Vertical || symmetry == DLASymmetry::Both)
            ==> final(map).tiles@[old(map).idx(x as int, old(map).height - 1 - y)]
            == TileType::Floor,
{
    let ghost w = map.width as int;
    let ghost h = map.height as int;
    let mx = map.width - 1 - x;
    let my = map.height - 1 - y;
    proof {
        lemma_idx_in_range(w, h, x as int, y as int);
        lemma_idx_in_range(w, h, mx as int, y as int);
        lemma_idx_in_range(w, h, x as int, my as int);
    }
    let ghost i0 = map.idx(x as int, y as int);
    let ghost ix = map.idx(mx as int, y as int);
    let ghost iy = map.idx(x as int, my as int);
    apply_paint(map, brush_size, x, y);
    match symmetry {
        DLASymmetry::NoSymmetry => {},
        DLASymmetry::Horizontal => {
            if mx != x {
                let ghost t1 = map.tiles@;
                apply_paint(map, brush_size, mx, y);
                proof {
                    if brush_size == 1 {
                        lemma_carved_keeps_floor(t1, w, mx as int, mx as int, y as int, y as int, false, i0 as int);
                    }
                }
            }
        },
        DLASymmetry::Vertical => {
            if my != y {
                let ghost t1 = map.tiles@;
                apply_paint(map, brush_size, x, my);
                proof {
                    if brush_size == 1 {
                        lemma_carved_keeps_floor(t1, w, x as int, x as int, my as int, my as int, false, i0);
                    }
                }
            }
        },
        DLASymmetry::Both => {
            if mx != x || my != y {
                let ghost t1 = map.tiles@;
                apply_paint(map, brush_size, mx, y);
                let ghost t2 = map.tiles@;
                apply_paint(map, brush_size, x, my);
                proof {
                    if brush_size == 1 {
                        lemma_carved_keeps_floor(t1, w, mx as int, mx as int, y as int, y as int, false, i0 as int);
                        lemma_carved_keeps_floor(t2, w, x as int, x as int, my as int, my as int, false, i0);
                        lemma_carved_keeps_floor(t2, w, x as int, x as int, my as int, my as int, false, ix);
                    }
                }
            }
        },
    }
}

} // verus!
