use vstd::prelude::*;
use rltk::RandomNumberGenerator;
use crate::builder::{MapBuilder, record_snapshot};
use crate::common::carve_box;
use crate::components::Position;
use crate::drunkard::no_stairs;
use crate::flood::{adjacent, all_walkable_connected, connected};
use crate::paths::{lemma_connected_grow, lemma_connected_self, lemma_connected_step, lemma_connected_trans};
use crate::map::{GridMap, TileType, MAPWIDTH, MAPHEIGHT, walkable, idx_of, col_of, row_of, in_bounds, lemma_idx_in_range};
use crate::random::roll_die;
use crate::rect::{Rect, rects_overlap};
use crate::simple_map::{box4_walkable, in_box4, lemma_box_tile, lemma_one_carve, rooms_disjoint, tile_in_box4};

verus! {

/// A half at or below this size is not split again.
pub const MIN_ROOM_SIZE: i32 = 8;

/// `r` lies within `b`.
pub open spec fn inside(r: Rect, b: Rect) -> bool {
    b.x1 <= r.x1 && r.x2 <= b.x2 && b.y1 <= r.y1 && r.y2 <= b.y2
}

/// A rectangle a split accepts: not inverted, its sides measurable in `i32`.
pub open spec fn splittable(r: Rect) -> bool {
    &&& i32::MIN < r.x1 <= r.x2
    &&& i32::MIN < r.y1 <= r.y2
    &&& r.x2 - r.x1 <= i32::MAX
    &&& r.y2 - r.y1 <= i32::MAX
}

/// A rectangle at least 8 wide and high, whose leaves are all rooms.
pub open spec fn roomy(r: Rect) -> bool {
    r.x2 - r.x1 >= 8 && r.y2 - r.y1 >= 8
}

/// A leaf at least three tiles wide and high (so its centre, as
/// `room_center` gives it, is `Rect::center`).
pub open spec fn leaf_ok(r: Rect) -> bool {
    r.x2 - r.x1 >= 3 && r.y2 - r.y1 >= 3
}

/// Interior levels: the map split into rooms by binary space partition,
/// neighbouring rooms joined by corridors.
pub struct BspInteriorBuilder {
    pub map: GridMap,
    pub starting_position: Position,
    pub depth: i32,
    pub history: Vec<GridMap>,
    /// Whether each step's map is recorded in `history`, for playback.
    pub visualize: bool,
    pub rects: Vec<Rect>,
    pub rooms: Vec<Rect>,
    pub spawn_list: Vec<(usize, String)>,
}

/// The two halves of a cut down the middle of `r`: the left one a column
/// short of the middle, the right one from the middle on.
pub open spec fn halves_across(r: Rect) -> (Rect, Rect) {
    let hw = (r.x2 - r.x1) / 2;
    (
        Rect { x1: r.x1, y1: r.y1, x2: (r.x1 + hw - 1) as i32, y2: r.y2 },
        Rect { x1: (r.x1 + hw) as i32, y1: r.y1, x2: (r.x1 + hw + hw) as i32, y2: r.y2 },
    )
}

/// The two halves of a cut across the middle of `r`, top and bottom.
pub open spec fn halves_down(r: Rect) -> (Rect, Rect) {
    let hh = (r.y2 - r.y1) / 2;
    (
        Rect { x1: r.x1, y1: r.y1, x2: r.x2, y2: (r.y1 + hh - 1) as i32 },
        Rect { x1: r.x1, y1: (r.y1 + hh) as i32, x2: r.x2, y2: (r.y1 + hh + hh) as i32 },
    )
}

/// The pieces appended from `start` on come from cutting `r` into the
/// halves `hv`, half-size `half`: at least two pieces, each in one half, the
/// first in the first half, the last in the second; a half at or below 8 is
/// appended whole.
pub open spec fn split_as(rects: Seq<Rect>, start: int, hv: (Rect, Rect), half: int) -> bool {
    &&& start + 2 <= rects.len()
    &&& forall|i: int| start <= i < rects.len() ==> inside(#[trigger] rects[i], hv.0) || inside(rects[i], hv.1)
    &&& inside(rects[start], hv.0)
    &&& inside(rects[rects.len() - 1], hv.1)
    &&& half <= MIN_ROOM_SIZE ==> rects.len() == start + 2 && rects[start] == hv.0 && rects[start + 1] == hv.1
}

/// Splits `rect` in two, across at random, and appends the pieces; a piece
/// whose half-size along the cut is above 8 is split in turn instead.
pub fn add_subrects(rect: Rect, rng: &mut RandomNumberGenerator, rects: &mut Vec<Rect>)
    requires
        splittable(rect),
    ensures
        final(rects)@.len() >= old(rects)@.len(),
        final(rects)@.subrange(0, old(rects)@.len() as int) == old(rects)@,
        forall|i: int|
            old(rects)@.len() <= i < final(rects)@.len() ==> inside(#[trigger] final(rects)@[i], rect)
                && (roomy(rect) ==> leaf_ok(final(rects)@[i])),
        forall|i: int, j: int|
            old(rects)@.len() <= i < j < final(rects)@.len() ==> !rects_overlap(
                #[trigger] final(rects)@[i],
                #[trigger] final(rects)@[j],
            ),
        final(rects)@.len() >= old(rects)@.len() + 2,
        split_as(final(rects)@, old(rects)@.len() as int, halves_across(rect), (rect.x2 - rect.x1) / 2)
            || split_as(final(rects)@, old(rects)@.len() as int, halves_down(rect), (rect.y2 - rect.y1) / 2),
    decreases (rect.x2 - rect.x1) + (rect.y2 - rect.y1),
{
    let ghost start = rects@.len();
    let width = rect.x2 - rect.x1;
    let height = rect.y2 - rect.y1;
    let half_width = width / 2;
    let half_height = height / 2;
    let split = roll_die(rng, 4);
    let (first, second, half) = if split <= 2 {
        (
            Rect::new(rect.x1, rect.y1, half_width - 1, height),
            Rect::new(rect.x1 + half_width, rect.y1, half_width, height),
            half_width,
        )
    } else {
        (
            Rect::new(rect.x1, rect.y1, width, half_height - 1),
            Rect::new(rect.x1, rect.y1 + half_height, width, half_height),
            half_height,
        )
    };
    assert(!rects_overlap(first, second));
    let ghost mid0 = rects@.len();
    if half > MIN_ROOM_SIZE {
        add_subrects(first, rng, rects);
    } else {
        rects.push(first);
    }
    let ghost mid = rects@.len();
    proof {
        assert forall|i: int| start <= i < mid implies inside(#[trigger] rects@[i], first)
            && (roomy(rect) ==> leaf_ok(rects@[i])) by {}
    }
    let ghost before_second = rects@;
    if half > MIN_ROOM_SIZE {
        add_subrects(second, rng, rects);
    } else {
        rects.push(second);
    }
    proof {
        assert(rects@.subrange(0, mid as int) == before_second);
        assert forall|i: int| start <= i < mid implies inside(#[trigger] rects@[i], first)
            && (roomy(rect) ==> leaf_ok(rects@[i])) by {
            assert(rects@[i] == before_second[i]);
        }
        assert forall|i: int| mid <= i < rects@.len() implies inside(#[trigger] rects@[i], second)
            && (roomy(rect) ==> leaf_ok(rects@[i])) by {}
        assert(rects@.subrange(0, start as int) =~= old(rects)@) by {
            assert(before_second.subrange(0, start as int) == old(rects)@);
            assert forall|k: int| 0 <= k < start implies rects@[k] == before_second[k] by {
                assert(rects@.subrange(0, mid as int)[k] == before_second[k]);
            }
        }
        assert forall|i: int, j: int| start <= i < j < rects@.len() implies !rects_overlap(
            #[trigger] rects@[i],
            #[trigger] rects@[j],
        ) by {
            if j < mid {
                assert(rects@[i] == before_second[i]);
                assert(rects@[j] == before_second[j]);
            } else if i < mid {
                assert(inside(rects@[i], first));
                assert(inside(rects@[j], second));
            }
        }
        assert(rects@[start as int] == before_second[start as int]);
        if split <= 2 {
            assert((first, second) == halves_across(rect));
            assert(half as int == (rect.x2 - rect.x1) / 2);
        } else {
            assert((first, second) == halves_down(rect));
            assert(half as int == (rect.y2 - rect.y1) / 2);
        }
    }
}

/// Digs floor from (x1, y1) to (x2, y2), first along the row, then along
/// the column, every tile after the first; the corridor joins the two ends.
pub fn draw_corridor(map: &mut GridMap, x1: i32, y1: i32, x2: i32, y2: i32)
    requires
        old(map).wf(),
        old(map).in_map(x1 as int, y1 as int),
        old(map).in_map(x2 as int, y2 as int),
        walkable(old(map).tiles@[old(map).idx(x1 as int, y1 as int)]),
    ensures
        final(map).wf(),
        final(map).same_shape(old(map)),
        forall|i: int|
            0 <= i < final(map).tiles@.len() && #[trigger] final(map).tiles@[i] != old(map).tiles@[i]
                ==> final(map).tiles@[i] == TileType::Floor,
        connected(
            final(map).tiles@,
            final(map).width as int,
            final(map).height as int,
            old(map).idx(x1 as int, y1 as int),
            old(map).idx(x2 as int, y2 as int),
        ),
        forall|j: int|
            0 <= j < final(map).tiles@.len() && walkable(#[trigger] final(map).tiles@[j]) ==> walkable(
                old(map).tiles@[j],
            ) || connected(
                final(map).tiles@,
                final(map).width as int,
                final(map).height as int,
                old(map).idx(x1 as int, y1 as int),
                j,
            ),
{
    let ghost w = map.width as int;
    let ghost h = map.height as int;
    let ghost o = map.tiles@;
    let ghost s1 = map.idx(x1 as int, y1 as int);
    proof {
        lemma_idx_in_range(w, h, x1 as int, y1 as int);
        lemma_connected_self(o, w, h, s1);
    }
    let mut x = x1;
    let mut y = y1;
    while x != x2 || y != y2
        invariant
            map.wf(),
            map.same_shape(old(map)),
            w == map.width,
            h == map.height,
            o == old(map).tiles@,
            s1 == idx_of(w, x1 as int, y1 as int),
            0 <= s1 < o.len(),
            map.in_map(x2 as int, y2 as int),
            (x1 <= x <= x2 || x2 <= x <= x1),
            (y1 <= y <= y2 || y2 <= y <= y1),
            map.in_map(x as int, y as int),
            forall|i: int|
                0 <= i < map.tiles@.len() && #[trigger] map.tiles@[i] != old(map).tiles@[i] ==> map.tiles@[i]
                    == TileType::Floor,
            walkable(map.tiles@[idx_of(w, x as int, y as int)]),
            connected(map.tiles@, w, h, s1, idx_of(w, x as int, y as int)),
            forall|j: int|
                0 <= j < map.tiles@.len() && walkable(#[trigger] map.tiles@[j]) ==> walkable(o[j]) || connected(
                    map.tiles@,
                    w,
                    h,
                    s1,
                    j,
                ),
        decreases (if x >= x2 { x - x2 } else { x2 - x }) + (if y >= y2 { y - y2 } else { y2 - y }),
    {
        let ghost px = x as int;
        let ghost py = y as int;
        let ghost t = map.tiles@;
        if x < x2 {
            x = x + 1;
        } else if x > x2 {
            x = x - 1;
        } else if y < y2 {
            y = y + 1;
        } else {
            y = y - 1;
        }
        let idx = map.xy_idx(x, y).unwrap();
        map.tiles.set(idx, TileType::Floor);
        proof {
            let t2 = map.tiles@;
            lemma_idx_in_range(w, h, px, py);
            lemma_idx_in_range(w, h, x as int, y as int);
            let a = idx_of(w, px, py);
            assert(a != idx as int) by {
                if a == idx as int {
                    assert(col_of(w, a) == px && col_of(w, idx as int) == x);
                }
            }
            assert(adjacent(w, h, a, idx as int));
            lemma_connected_grow(t, t2, w, h, s1, a);
            lemma_connected_step(t2, w, h, s1, a, idx as int);
            assert forall|j: int|
                0 <= j < t2.len() && walkable(#[trigger] t2[j]) implies walkable(o[j]) || connected(t2, w, h, s1, j) by {
                if j != idx as int && !walkable(o[j]) {
                    assert(walkable(t[j]));
                    lemma_connected_grow(t, t2, w, h, s1, j);
                }
            }
        }
    }
}

/// The tiles a room's floor covers: columns x1 to x2 - 1, rows y1 to y2 - 1.
pub open spec fn floor_box(r: Rect) -> (int, int, int, int) {
    (r.x1 as int, r.x2 - 1, r.y1 as int, r.y2 - 1)
}

/// The centre of a room, or its corner when it has no extent.
pub open spec fn room_center(r: Rect) -> (int, int) {
    (
        if r.x1 <= r.x2 { (r.x1 + r.x2) / 2 } else { r.x2 as int },
        if r.y1 <= r.y2 { (r.y1 + r.y2) / 2 } else { r.y2 as int },
    )
}

fn center_or_corner(r: Rect) -> (p: (i32, i32))
    requires
        0 <= r.x1 <= 4096,
        0 <= r.y1 <= 4096,
        0 <= r.x2 <= 4096,
        0 <= r.y2 <= 4096,
    ensures
        p.0 == room_center(r).0,
        p.1 == room_center(r).1,
        r.x1 <= r.x2 ==> r.x1 <= p.0 <= r.x2,
        r.y1 <= r.y2 ==> r.y1 <= p.1 <= r.y2,
        r.x2 < r.x1 ==> p.0 == r.x2,
        r.y2 < r.y1 ==> p.1 == r.y2,
{
    let x = if r.x1 <= r.x2 { (r.x1 + r.x2) / 2 } else { r.x2 };
    let y = if r.y1 <= r.y2 { (r.y1 + r.y2) / 2 } else { r.y2 };
    (x, y)
}

/// A random point of the room: x1 plus up to its width less one, and the
/// same down; a room with no width or height gives its corner.
fn random_point_in(r: Rect, rng: &mut RandomNumberGenerator) -> (p: (i32, i32))
    requires
        0 <= r.x1 <= 4096,
        0 <= r.y1 <= 4096,
        r.x1 + 1 <= r.x2 <= 4096,
        r.y1 + 1 <= r.y2 <= 4096,
    ensures
        in_box4(floor_box(r), (p.0 as int, p.1 as int)),
{
    let dx = r.x2 - r.x1;
    let dy = r.y2 - r.y1;
    let x = if dx >= 1 { r.x1 + roll_die(rng, dx) - 1 } else { r.x1 };
    let y = if dy >= 1 { r.y1 + roll_die(rng, dy) - 1 } else { r.y1 };
    (x, y)
}

impl BspInteriorBuilder {
    pub fn new(new_depth: i32) -> (r: BspInteriorBuilder)
        ensures
            r.depth == new_depth,
            r.map.fresh(new_depth),
            r.rooms@.len() == 0,
    {
        BspInteriorBuilder {
            map: GridMap::new(new_depth),
            starting_position: Position { x: 0, y: 0 },
            depth: new_depth,
            history: Vec::new(),
            visualize: false,
            rects: Vec::new(),
            rooms: Vec::new(),
            spawn_list: Vec::new(),
        }
    }

    #[verifier::rlimit(100)]
    /// Partitions the inside of the map into rooms, floors them, joins each
    /// room to the next by a corridor between random points of the two, puts
    /// the down stairs at the centre of the last room and the player at the
    /// centre of the first.
    pub fn build(&mut self, rng: &mut RandomNumberGenerator)
        ensures
            final(self).map.wf(),
            final(self).map.width == MAPWIDTH && final(self).map.height == MAPHEIGHT,
            final(self).rooms@.len() >= 1,
            rooms_disjoint(final(self).rooms@),
            forall|a: int|
                0 <= a < final(self).rooms@.len() ==> inside(
                    #[trigger] final(self).rooms@[a],
                    Rect { x1: 1, y1: 1, x2: (MAPWIDTH - 1) as i32, y2: (MAPHEIGHT - 1) as i32 },
                ) && leaf_ok(final(self).rooms@[a]) && final(self).rooms@[a].wf(),
            ({
                let m = final(self).map;
                let last = final(self).rooms@[final(self).rooms@.len() - 1];
                let stairs = m.idx(room_center(last).0, room_center(last).1);
                &&& m.tiles@[stairs] == TileType::DownStairs
                &&& forall|i: int|
                    0 <= i < m.tiles@.len() ==> (#[trigger] m.tiles@[i] == TileType::DownStairs <==> i
                        == stairs)
            }),
            final(self).starting_position.x == room_center(final(self).rooms@[0]).0,
            final(self).starting_position.y == room_center(final(self).rooms@[0]).1,
            final(self).map.in_map(final(self).starting_position.x as int, final(self).starting_position.y as int),
            all_walkable_connected(
                final(self).map.tiles@,
                final(self).map.width as int,
                final(self).map.height as int,
                final(self).map.idx(final(self).starting_position.x as int, final(self).starting_position.y as int),
            ),
            forall|a: int|
                0 <= a < final(self).rooms@.len() - 1 ==> final(self).map.tiles@[final(self).map.idx(
                    room_center(#[trigger] final(self).rooms@[a]).0,
                    room_center(final(self).rooms@[a]).1,
                )] == TileType::Floor,
    {
        self.map = GridMap::new(self.depth);
        let ghost W = MAPWIDTH as int;
        let ghost H = MAPHEIGHT as int;
        let bounds = Rect::new(1, 1, self.map.width - 2, self.map.height - 2);
        let mut leaves: Vec<Rect> = Vec::new();
        add_subrects(bounds, rng, &mut leaves);
        assert(leaves@.subrange(0, 0) =~= Seq::<Rect>::empty());
        if leaves.len() == 0 {
            leaves.push(bounds);
        }
        self.rects = leaves.clone();
        self.rooms = leaves;
        let n = self.rooms.len();
        let mut r: usize = 0;
        while r < n
            invariant
                self.map.wf(),
                self.map.width == W,
                self.map.height == H,
                W == MAPWIDTH,
                H == MAPHEIGHT,
                n == self.rooms@.len(),
                n >= 1,
                r <= n,
                rooms_disjoint(self.rooms@),
                forall|a: int| 0 <= a < n ==> inside(#[trigger] self.rooms@[a], bounds) && leaf_ok(self.rooms@[a]),
                bounds == (Rect { x1: 1, y1: 1, x2: (MAPWIDTH - 1) as i32, y2: (MAPHEIGHT - 1) as i32 }),
                no_stairs(self.map.tiles@),
                forall|k: int| 0 <= k < r ==> box4_walkable(self.map.tiles@, W, H, floor_box(#[trigger] self.rooms@[k])),
                forall|j: int|
                    0 <= j < self.map.tiles@.len() && walkable(#[trigger] self.map.tiles@[j]) ==> exists|k: int|
                        0 <= k < r && tile_in_box4(W, j, floor_box(#[trigger] self.rooms@[k])),
            decreases n - r,
        {
            let room = self.rooms[r];
            let ghost t0 = self.map.tiles@;
            carve_box(&mut self.map, room.x1, room.x2 - 1, room.y1, room.y2 - 1, false);
            proof {
                let t1 = self.map.tiles@;
                lemma_one_carve(t0, t1, W, H, floor_box(room));
                assert forall|k: int| 0 <= k < r + 1 implies box4_walkable(t1, W, H, floor_box(#[trigger] self.rooms@[k])) by {
                    if k < r {
                        let b = floor_box(self.rooms@[k]);
                        assert(box4_walkable(t0, W, H, b));
                        assert forall|i: int|
                            0 <= i < t1.len() && b.0 <= col_of(W, i) <= b.1 && b.2 <= row_of(W, i) <= b.3 implies walkable(
                            #[trigger] t1[i],
                        ) by {
                            assert(walkable(t0[i]));
                        }
                    }
                }
                assert forall|j: int|
                    0 <= j < t1.len() && walkable(#[trigger] t1[j]) implies exists|k: int|
                        0 <= k < r + 1 && tile_in_box4(W, j, floor_box(#[trigger] self.rooms@[k])) by {
                    if !tile_in_box4(W, j, floor_box(room)) {
                        assert(walkable(t0[j]));
                        let k = choose|k: int| 0 <= k < r && tile_in_box4(W, j, floor_box(#[trigger] self.rooms@[k]));
                        assert(0 <= k < r + 1 && tile_in_box4(W, j, floor_box(self.rooms@[k])));
                    } else {
                        assert(0 <= r < r + 1 && tile_in_box4(W, j, floor_box(self.rooms@[r as int])));
                    }
                }
            }
            record_snapshot(&self.map, &mut self.history, self.visualize);
            r = r + 1;
        }
        let first = self.rooms[0];
        let (px, py) = center_or_corner(first);
        let ghost s0 = idx_of(W, px as int, py as int);
        proof {
            assert(inside(first, bounds) && leaf_ok(first));
            lemma_idx_in_range(W, H, px as int, py as int);
            assert forall|j: int|
                0 <= j < self.map.tiles@.len() && walkable(#[trigger] self.map.tiles@[j]) implies connected(
                    self.map.tiles@,
                    W,
                    H,
                    s0,
                    j,
                ) || exists|k: int| 0 < k < n && tile_in_box4(W, j, floor_box(#[trigger] self.rooms@[k])) by {
                let k = choose|k: int| 0 <= k < n && tile_in_box4(W, j, floor_box(#[trigger] self.rooms@[k]));
                if k == 0 {
                    lemma_box_tile(self.map.tiles@, W, H, floor_box(first), (px as int, py as int), j);
                } else {
                    assert(0 < k < n && tile_in_box4(W, j, floor_box(self.rooms@[k])));
                }
            }
            assert forall|k: int, j: int|
                0 <= k <= 0 && 0 <= j < self.map.tiles@.len() && #[trigger] tile_in_box4(W, j, floor_box(self.rooms@[k]))
                    implies connected(self.map.tiles@, W, H, s0, j) by {
                lemma_box_tile(self.map.tiles@, W, H, floor_box(first), (px as int, py as int), j);
            }
        }
        let mut i: usize = 0;
        while i < n - 1
            invariant
                self.map.wf(),
                self.map.width == W,
                self.map.height == H,
                W == MAPWIDTH,
                H == MAPHEIGHT,
                n == self.rooms@.len(),
                n >= 1,
                i <= n - 1,
                rooms_disjoint(self.rooms@),
                forall|a: int| 0 <= a < n ==> inside(#[trigger] self.rooms@[a], bounds) && leaf_ok(self.rooms@[a]),
                bounds == (Rect { x1: 1, y1: 1, x2: (MAPWIDTH - 1) as i32, y2: (MAPHEIGHT - 1) as i32 }),
                no_stairs(self.map.tiles@),
                first == self.rooms@[0],
                s0 == idx_of(W, px as int, py as int),
                in_bounds(W, H, px as int, py as int),
                forall|k: int| 0 <= k < n ==> box4_walkable(self.map.tiles@, W, H, floor_box(#[trigger] self.rooms@[k])),
                forall|k: int, j: int|
                    0 <= k <= i && 0 <= j < self.map.tiles@.len() && #[trigger] tile_in_box4(W, j, floor_box(self.rooms@[k]))
                        ==> connected(self.map.tiles@, W, H, s0, j),
                forall|j: int|
                    0 <= j < self.map.tiles@.len() && walkable(#[trigger] self.map.tiles@[j]) ==> connected(
                        self.map.tiles@,
                        W,
                        H,
                        s0,
                        j,
                    ) || exists|k: int| i < k < n && tile_in_box4(W, j, floor_box(#[trigger] self.rooms@[k])),
            decreases n - i,
        {
            let room = self.rooms[i];
            let next_room = self.rooms[i + 1];
            proof {
                assert(inside(room, bounds) && leaf_ok(room));
                assert(inside(next_room, bounds) && leaf_ok(next_room));
            }
            let (sx, sy) = random_point_in(room, rng);
            let (ex, ey) = random_point_in(next_room, rng);
            let ghost t = self.map.tiles@;
            let ghost a = idx_of(W, sx as int, sy as int);
            let ghost e = idx_of(W, ex as int, ey as int);
            proof {
                lemma_idx_in_range(W, H, sx as int, sy as int);
                lemma_idx_in_range(W, H, ex as int, ey as int);
                assert(box4_walkable(t, W, H, floor_box(room)));
                assert(walkable(t[a]));
                assert(tile_in_box4(W, a, floor_box(room)));
                assert(connected(t, W, H, s0, a));
            }
            draw_corridor(&mut self.map, sx, sy, ex, ey);
            record_snapshot(&self.map, &mut self.history, self.visualize);
            proof {
                let t2 = self.map.tiles@;
                assert forall|j: int| 0 <= j < t.len() && walkable(#[trigger] t[j]) implies walkable(t2[j]) by {
                    if t2[j] != t[j] {
                        assert(t2[j] == TileType::Floor);
                    }
                }
                lemma_connected_grow(t, t2, W, H, s0, a);
                lemma_connected_trans(t2, W, H, s0, a, e);
                assert forall|k: int| 0 <= k < n implies box4_walkable(t2, W, H, floor_box(#[trigger] self.rooms@[k])) by {
                    let b = floor_box(self.rooms@[k]);
                    assert(box4_walkable(t, W, H, b));
                    assert forall|q: int|
                        0 <= q < t2.len() && b.0 <= col_of(W, q) <= b.1 && b.2 <= row_of(W, q) <= b.3 implies walkable(
                        #[trigger] t2[q],
                    ) by {
                        assert(walkable(t[q]));
                    }
                }
                assert forall|k: int, j: int|
                    0 <= k <= i + 1 && 0 <= j < t2.len() && #[trigger] tile_in_box4(W, j, floor_box(self.rooms@[k]))
                        implies connected(t2, W, H, s0, j) by {
                    if k <= i {
                        lemma_connected_grow(t, t2, W, H, s0, j);
                    } else {
                        lemma_box_tile(t2, W, H, floor_box(next_room), (ex as int, ey as int), j);
                        lemma_connected_trans(t2, W, H, s0, e, j);
                    }
                }
                assert forall|j: int|
                    0 <= j < t2.len() && walkable(#[trigger] t2[j]) implies connected(t2, W, H, s0, j) || exists|k: int|
                        i + 1 < k < n && tile_in_box4(W, j, floor_box(#[trigger] self.rooms@[k])) by {
                    if walkable(t[j]) {
                        if connected(t, W, H, s0, j) {
                            lemma_connected_grow(t, t2, W, H, s0, j);
                        } else {
                            let k = choose|k: int| i < k < n && tile_in_box4(W, j, floor_box(#[trigger] self.rooms@[k]));
                            if k == i + 1 {
                                lemma_box_tile(t2, W, H, floor_box(next_room), (ex as int, ey as int), j);
                                lemma_connected_trans(t2, W, H, s0, e, j);
                            }
                        }
                    } else {
                        assert(connected(t2, W, H, a, j));
                        lemma_connected_trans(t2, W, H, s0, a, j);
                    }
                }
            }
            i = i + 1;
        }
        let last = self.rooms[n - 1];
        proof {
            assert(inside(last, bounds) && leaf_ok(last));
        }
        let (cx, cy) = center_or_corner(last);
        let stairs_idx = self.map.xy_idx(cx, cy).unwrap();
        let ghost t3 = self.map.tiles@;
        proof {
            assert(box4_walkable(t3, W, H, floor_box(last)));
            lemma_idx_in_range(W, H, cx as int, cy as int);
            assert(walkable(t3[stairs_idx as int]));
        }
        self.map.tiles.set(stairs_idx, TileType::DownStairs);
        self.starting_position = Position { x: px, y: py };
        proof {
            let t4 = self.map.tiles@;
            assert forall|a: int| 0 <= a < n - 1 implies t4[idx_of(
                W,
                room_center(#[trigger] self.rooms@[a]).0,
                room_center(self.rooms@[a]).1,
            )] == TileType::Floor by {
                let r = self.rooms@[a];
                assert(inside(r, bounds) && leaf_ok(r));
                let c = room_center(r);
                lemma_idx_in_range(W, H, c.0, c.1);
                let ci = idx_of(W, c.0, c.1);
                assert(box4_walkable(t3, W, H, floor_box(r)));
                assert(walkable(t3[ci]));
                if ci == stairs_idx as int {
                    lemma_idx_in_range(W, H, cx as int, cy as int);
                    assert(rects_overlap(r, last));
                    assert(self.rooms@[n - 1] == last);
                }
            }
            assert forall|j: int| 0 <= j < t4.len() && walkable(#[trigger] t4[j]) implies connected(t4, W, H, s0, j) by {
                assert(walkable(t3[j]));
                lemma_connected_grow(t3, t4, W, H, s0, j);
            }
        }
    }
}

impl MapBuilder for BspInteriorBuilder {
    open spec fn finished(&self) -> bool {
        crate::registry::finished_level((self.map, self.starting_position))
    }

    open spec fn current_map(&self) -> GridMap {
        self.map
    }

    open spec fn snapshots(&self) -> Seq<GridMap> {
        self.history@
    }

    open spec fn visualizing(&self) -> bool {
        self.visualize
    }

    fn build_map(&mut self, rng: &mut RandomNumberGenerator) {
        self.build(rng);
        let ghost e = self.map.idx(
            room_center(self.rooms@[self.rooms@.len() - 1]).0,
            room_center(self.rooms@[self.rooms@.len() - 1]).1,
        );
        proof {
            let rs = self.rooms@;
            let last = rs[rs.len() - 1];
            assert(leaf_ok(last) && last.wf());
            lemma_idx_in_range(MAPWIDTH as int, MAPHEIGHT as int, room_center(last).0, room_center(last).1);
            if rs.len() > 1 {
                assert(self.map.tiles@[self.map.idx(room_center(rs[0]).0, room_center(rs[0]).1)] == TileType::Floor);
            }
            let r = (self.map, self.starting_position);
            assert(crate::builder::level_ok(r.0, r.1, e));
        }
    }

    fn get_map(&self) -> GridMap {
        self.map.clone()
    }

    fn get_starting_position(&self) -> Position {
        self.starting_position
    }

    fn get_snapshot_history(&self) -> Vec<GridMap> {
        self.history.clone()
    }

    fn get_spawn_list(&self) -> Vec<(usize, String)> {
        self.spawn_list.clone()
    }

    fn take_snapshot(&mut self) {
        if self.map.is_well_formed() {
            record_snapshot(&self.map, &mut self.history, self.visualize);
        }
    }
}

} // verus!
